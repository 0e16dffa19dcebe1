//! The discrete side of the animation timeline: easing kinds, tracks, and
//! the selection of a keyframe by track and position.
//!
//! A selection is a position in a track's ordered keys, never a reference to
//! a key, so that it can be held while keys are moved, added and removed.

use vstd::prelude::*;

verus! {

/// The easing curve of the segment that leaves a keyframe.
#[derive(Clone, Copy, Debug, PartialEq, Eq, Structural)]
pub enum Easing {
    Linear,
    EaseIn,
    EaseOut,
    EaseInOut,
    SmoothStep,
}

impl Default for Easing {
    fn default() -> (easing: Easing)
        ensures
            easing == Easing::Linear,
    {
        Easing::Linear
    }
}

impl Easing {
    /// The name shown for the curve.
    pub open spec fn spec_label(self) -> Seq<char> {
        match self {
            Easing::Linear => "Linear"@,
            Easing::EaseIn => "EaseIn"@,
            Easing::EaseOut => "EaseOut"@,
            Easing::EaseInOut => "EaseInOut"@,
            Easing::SmoothStep => "SmoothStep"@,
        }
    }

    /// The curve that follows this one when a key's easing is cycled.
    pub open spec fn spec_next(self) -> Easing {
        match self {
            Easing::Linear => Easing::EaseIn,
            Easing::EaseIn => Easing::EaseOut,
            Easing::EaseOut => Easing::EaseInOut,
            Easing::EaseInOut => Easing::SmoothStep,
            Easing::SmoothStep => Easing::Linear,
        }
    }

    pub fn label(&self) -> (name: &'static str)
        ensures
            name@ == self.spec_label(),
    {
        match self {
            Easing::Linear => "Linear",
            Easing::EaseIn => "EaseIn",
            Easing::EaseOut => "EaseOut",
            Easing::EaseInOut => "EaseInOut",
            Easing::SmoothStep => "SmoothStep",
        }
    }

    /// Cycles to the next curve: linear, ease-in, ease-out, ease-in-out,
    /// smooth step, and linear again.
    #[verifier::when_used_as_spec(spec_next)]
    pub fn next(self) -> (following: Easing)
        ensures
            following == self.spec_next(),
    {
        match self {
            Easing::Linear => Easing::EaseIn,
            Easing::EaseIn => Easing::EaseOut,
            Easing::EaseOut => Easing::EaseInOut,
            Easing::EaseInOut => Easing::SmoothStep,
            Easing::SmoothStep => Easing::Linear,
        }
    }
}

/// Cycling changes the curve every time and comes back to where it started
/// after five steps, and on the way it passes every other curve.
pub proof fn lemma_easing_cycle(easing: Easing, other: Easing)
    ensures
        easing.spec_next() != easing,
        easing.spec_next().spec_next().spec_next().spec_next().spec_next() == easing,
        other == easing || other == easing.spec_next() || other == easing.spec_next().spec_next()
            || other == easing.spec_next().spec_next().spec_next() || other
            == easing.spec_next().spec_next().spec_next().spec_next(),
{
}

/// The animated quantities, one keyframe track each.
#[derive(Clone, Copy, Debug, PartialEq, Eq, Structural)]
pub enum TrackKind {
    Zoom,
    Palette,
    CenterX,
    CenterY,
}

impl TrackKind {
    /// The name shown for the track.
    pub open spec fn spec_label(self) -> Seq<char> {
        match self {
            TrackKind::Zoom => "Zoom"@,
            TrackKind::Palette => "Palette"@,
            TrackKind::CenterX => "Center X"@,
            TrackKind::CenterY => "Center Y"@,
        }
    }

    pub fn label(&self) -> (name: &'static str)
        ensures
            name@ == self.spec_label(),
    {
        match self {
            TrackKind::Zoom => "Zoom",
            TrackKind::Palette => "Palette",
            TrackKind::CenterX => "Center X",
            TrackKind::CenterY => "Center Y",
        }
    }

    /// The position of the track among the four tracks.
    pub fn ordinal(self) -> (position: u8)
        ensures
            position == match self {
                TrackKind::Zoom => 0u8,
                TrackKind::Palette => 1u8,
                TrackKind::CenterX => 2u8,
                TrackKind::CenterY => 3u8,
            },
    {
        match self {
            TrackKind::Zoom => 0,
            TrackKind::Palette => 1,
            TrackKind::CenterX => 2,
            TrackKind::CenterY => 3,
        }
    }
}

/// The selected keyframe: a track and a position among that track's keys.
#[derive(Clone, Copy, Debug, PartialEq, Eq, Structural)]
pub struct SelectedKey {
    pub track: TrackKind,
    pub index: usize,
}

impl SelectedKey {
    /// Whether this is the key at `index` of `track`.
    pub fn is_key(&self, track: TrackKind, index: usize) -> (same: bool)
        ensures
            same == (self.track == track && self.index == index),
    {
        self.track == track && self.index == index
    }
}

/// Whether `selection` is the key at `index` of `track`.
pub fn is_selected(selection: &Option<SelectedKey>, track: TrackKind, index: usize) -> (same: bool)
    ensures
        same == (*selection == Some(SelectedKey { track, index })),
{
    match selection {
        Some(key) => key.is_key(track, index),
        None => false,
    }
}

/// The selection after the key at `index` of `track` has been removed: the
/// removed key is no longer selected, any other selection stays.
pub fn selection_after_removal(
    selection: Option<SelectedKey>,
    track: TrackKind,
    index: usize,
) -> (kept: Option<SelectedKey>)
    ensures
        kept == if selection == Some(SelectedKey { track, index }) {
            None::<SelectedKey>
        } else {
            selection
        },
{
    if is_selected(&selection, track, index) {
        None
    } else {
        selection
    }
}

/// The selection, checked against the number of keys of the track that it
/// names: a position at which the track has no key selects nothing.
pub fn selection_in_track(selection: Option<SelectedKey>, track_len: usize) -> (kept: Option<
    SelectedKey,
>)
    ensures
        kept == match selection {
            Some(key) => if key.index < track_len {
                selection
            } else {
                None::<SelectedKey>
            },
            None => None::<SelectedKey>,
        },
{
    match selection {
        Some(key) => if key.index < track_len {
            selection
        } else {
            None
        },
        None => None,
    }
}

/// The playback clock after a tick.
#[derive(Clone, Copy, Debug)]
pub struct Clock<T> {
    /// The elapsed time.
    pub t: T,
    /// Whether playback goes on.
    pub playing: bool,
}

/// Advances the playback clock by one tick.
///
/// A paused clock stays as it is. A playing clock moves on by `forward`;
/// where `at_end` then holds of the time, a looping clock continues from
/// `wrap` of it, and any other clock stops at `end`. How times are added,
/// compared and wrapped is the caller's.
pub fn advance<T: Copy, A: Fn(T) -> T, E: Fn(T) -> bool, W: Fn(T) -> T>(
    clock: Clock<T>,
    looping: bool,
    end: T,
    forward: &A,
    at_end: &E,
    wrap: &W,
) -> (after: Clock<T>)
    requires
        call_requires(forward, (clock.t,)),
        forall|t: T| #[trigger] call_requires(at_end, (t,)),
        forall|t: T| #[trigger] call_requires(wrap, (t,)),
    ensures
        !clock.playing ==> after == clock,
        clock.playing ==> exists|moved: T|
            {
                &&& #[trigger] call_ensures(forward, (clock.t,), moved)
                &&& {
                    ||| call_ensures(at_end, (moved,), false) && after.t == moved && after.playing
                    ||| call_ensures(at_end, (moved,), true) && looping && call_ensures(
                        wrap,
                        (moved,),
                        after.t,
                    ) && after.playing
                    ||| call_ensures(at_end, (moved,), true) && !looping && after.t == end
                        && !after.playing
                }
            },
{
    if !clock.playing {
        return clock;
    }
    let moved = forward(clock.t);
    if at_end(moved) {
        if looping {
            Clock { t: wrap(moved), playing: true }
        } else {
            Clock { t: end, playing: false }
        }
    } else {
        Clock { t: moved, playing: true }
    }
}

/// Resolves an absolute playback time into the time at which the keyframe
/// tracks are sampled and the time that drives the zoom.
///
/// On a timeline without duration (`bounded` false) the key time is `zero`.
/// On a bounded timeline it is `wrap` of the absolute time when looping and
/// `clamp` of it otherwise. The zoom time is the absolute time itself while
/// an endless zoom is active, so that the zoom runs on while the tracks loop
/// or hold, and the key time otherwise.
pub fn resolve_times<T: Copy, W: Fn(T) -> T, C: Fn(T) -> T>(
    bounded: bool,
    looping: bool,
    endless_zoom: bool,
    absolute: T,
    zero: T,
    wrap: &W,
    clamp: &C,
) -> (times: (T, T))
    requires
        call_requires(wrap, (absolute,)),
        call_requires(clamp, (absolute,)),
    ensures
        !bounded ==> times.0 == zero,
        bounded && looping ==> call_ensures(wrap, (absolute,), times.0),
        bounded && !looping ==> call_ensures(clamp, (absolute,), times.0),
        times.1 == if endless_zoom { absolute } else { times.0 },
{
    let key_time = if !bounded {
        zero
    } else if looping {
        wrap(absolute)
    } else {
        clamp(absolute)
    };
    let zoom_time = if endless_zoom { absolute } else { key_time };
    (key_time, zoom_time)
}

} // verus!
