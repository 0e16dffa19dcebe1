//! The render backends and the rules by which a render falls back from the
//! accelerated backend to the reference backend.

use vstd::prelude::*;

verus! {

/// The backend that renders a tile.
#[derive(Clone, Copy, Debug, PartialEq, Eq, Structural)]
pub enum RenderBackend {
    /// The reference evaluator, always available.
    Cpu,
    /// The accelerated evaluator, available once its device is initialised.
    Gpu,
}

impl Default for RenderBackend {
    fn default() -> (backend: RenderBackend)
        ensures
            backend == RenderBackend::Cpu,
    {
        RenderBackend::Cpu
    }
}

impl RenderBackend {
    /// The name shown for the backend.
    pub open spec fn spec_label(self) -> Seq<char> {
        match self {
            RenderBackend::Cpu => "CPU"@,
            RenderBackend::Gpu => "GPU"@,
        }
    }

    pub fn label(&self) -> (name: &'static str)
        ensures
            name@ == self.spec_label(),
    {
        match self {
            RenderBackend::Cpu => "CPU",
            RenderBackend::Gpu => "GPU",
        }
    }

    /// Whether the accelerated backend has to be initialised before the next
    /// render: it is selected and no device is at hand.
    pub fn needs_init(self, device_ready: bool) -> (needed: bool)
        ensures
            needed == (self == RenderBackend::Gpu && !device_ready),
    {
        match self {
            RenderBackend::Cpu => false,
            RenderBackend::Gpu => !device_ready,
        }
    }

    /// The selection after an attempt to initialise the accelerated backend:
    /// a failure selects the reference backend for good.
    pub fn after_init(self, succeeded: bool) -> (selected: RenderBackend)
        ensures
            selected == if succeeded { self } else { RenderBackend::Cpu },
    {
        if succeeded {
            self
        } else {
            RenderBackend::Cpu
        }
    }

    /// The backend that is tried first for a tile: the accelerated one only
    /// where it is selected and its device is at hand.
    pub fn for_tile(self, device_ready: bool) -> (first: RenderBackend)
        ensures
            first == if self == RenderBackend::Gpu && device_ready {
                RenderBackend::Gpu
            } else {
                RenderBackend::Cpu
            },
    {
        match self {
            RenderBackend::Cpu => RenderBackend::Cpu,
            RenderBackend::Gpu => if device_ready {
                RenderBackend::Gpu
            } else {
                RenderBackend::Cpu
            },
        }
    }

    /// The backend that renders a tile again after this one has failed on
    /// it, if there is one: only the accelerated backend has a fallback.
    pub fn fallback(self) -> (next: Option<RenderBackend>)
        ensures
            next == if self == RenderBackend::Gpu {
                Some(RenderBackend::Cpu)
            } else {
                None::<RenderBackend>
            },
    {
        match self {
            RenderBackend::Cpu => None,
            RenderBackend::Gpu => Some(RenderBackend::Cpu),
        }
    }
}

/// The escape-time formulas.
#[derive(Clone, Copy, Debug, PartialEq, Eq, Structural)]
pub enum FractalKind {
    Mandelbrot,
    Julia,
    BurningShip,
    Multibrot,
}

impl FractalKind {
    /// The number by which the accelerated backend's program knows the
    /// formula.
    pub fn shader_code(self) -> (code: u32)
        ensures
            code == match self {
                FractalKind::Mandelbrot => 0u32,
                FractalKind::Julia => 1u32,
                FractalKind::BurningShip => 2u32,
                FractalKind::Multibrot => 3u32,
            },
    {
        match self {
            FractalKind::Mandelbrot => 0,
            FractalKind::Julia => 1,
            FractalKind::BurningShip => 2,
            FractalKind::Multibrot => 3,
        }
    }

    /// Whether the iteration starts at the pixel's point with a fixed
    /// constant, as the Julia set does, and not at zero with the point as
    /// the constant.
    pub fn starts_at_point(self) -> (julia: bool)
        ensures
            julia == (self == FractalKind::Julia),
    {
        match self {
            FractalKind::Julia => true,
            _ => false,
        }
    }
}

/// The shapes of an orbit trap.
#[derive(Clone, Copy, Debug, PartialEq, Eq, Structural)]
pub enum OrbitTrapKind {
    Point,
    Circle,
    Cross,
}

impl OrbitTrapKind {
    /// The number by which the accelerated backend's program knows the
    /// shape.
    pub fn shader_code(self) -> (code: u32)
        ensures
            code == match self {
                OrbitTrapKind::Point => 0u32,
                OrbitTrapKind::Circle => 1u32,
                OrbitTrapKind::Cross => 2u32,
            },
    {
        match self {
            OrbitTrapKind::Point => 0,
            OrbitTrapKind::Circle => 1,
            OrbitTrapKind::Cross => 2,
        }
    }
}

} // verus!
