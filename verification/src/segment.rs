//! Locating a position among ordered control points.
//!
//! Keyframe tracks and palette stops are both sampled the same way: find the
//! pair of neighbouring control points that brackets the position and
//! interpolate between them, or hold the value of a boundary point. This
//! module finds the pair. How positions compare is the caller's: it says,
//! for a control point, whether the position lies at or before it.

use vstd::prelude::*;

verus! {

/// Where a position lies among `len` control points, numbered from zero in
/// their order.
#[derive(Clone, Copy, Debug, PartialEq, Eq, Structural)]
pub enum Bracket {
    /// There is no control point.
    Empty,
    /// There is one control point; its value holds everywhere.
    Single,
    /// The position lies at or before the point `next`, and after every
    /// point between the first and `next`; `prev` is the point before
    /// `next`. A position before the first point is bracketed by the first
    /// two points.
    Between { prev: usize, next: usize },
    /// The position lies after every point; `last` is the last point.
    Beyond { last: usize },
}

/// Whether `found` is where a position lies among `len` control points,
/// going by the answers of `reached`.
pub open spec fn brackets<F: Fn(usize) -> bool>(found: Bracket, len: usize, reached: F) -> bool {
    match found {
        Bracket::Empty => len == 0,
        Bracket::Single => len == 1,
        Bracket::Between { prev, next } => {
            &&& 1 <= next < len
            &&& prev + 1 == next
            &&& call_ensures(reached, (next,), true)
            &&& forall|k: usize| 1 <= k < next ==> #[trigger] call_ensures(reached, (k,), false)
        },
        Bracket::Beyond { last } => {
            &&& 2 <= len
            &&& last + 1 == len
            &&& forall|k: usize| 1 <= k < len ==> #[trigger] call_ensures(reached, (k,), false)
        },
    }
}

/// Finds where a position lies among `len` control points. `reached(k)`
/// says whether the position lies at or before the point `k`; it is asked
/// for the points from the second on, in order, up to the first that the
/// position has reached.
pub fn bracket<F: Fn(usize) -> bool>(len: usize, reached: &F) -> (found: Bracket)
    requires
        forall|k: usize| 1 <= k < len ==> #[trigger] call_requires(reached, (k,)),
    ensures
        brackets(found, len, reached),
{
    if len == 0 {
        return Bracket::Empty;
    }
    if len == 1 {
        return Bracket::Single;
    }
    let mut next: usize = 1;
    while next < len
        invariant
            2 <= len,
            1 <= next <= len,
            forall|k: usize| 1 <= k < len ==> #[trigger] call_requires(reached, (k,)),
            forall|k: usize| 1 <= k < next ==> #[trigger] call_ensures(reached, (k,), false),
        decreases len - next,
    {
        if reached(next) {
            return Bracket::Between { prev: next - 1, next };
        }
        next = next + 1;
    }
    Bracket::Beyond { last: len - 1 }
}

} // verus!
