//! The escape-time iteration: a state is stepped until it escapes or a limit
//! of iterations is reached.
//!
//! What a state is, when it has escaped and how it is stepped are the
//! caller's: numbers of any kind, a running minimum carried along, one of
//! several formulas. The count of iterations is what this module owns.

use vstd::prelude::*;

verus! {

/// How a trajectory ended: the number of steps taken and the state reached.
#[derive(Clone, Copy, Debug)]
pub struct Trajectory<S> {
    /// The number of steps taken: the limit for a point that did not escape
    /// within it.
    pub iterations: u32,
    /// The state after the last step, the start where no step was taken.
    pub last: S,
}

/// Whether `orbit` is a run of successive states from `start` in which no
/// state but the last has escaped: each state after the first is what
/// `step` returns for the state before it, and for that state `escaped`
/// returns false.
pub open spec fn is_orbit<S, E: Fn(S) -> bool, N: Fn(S) -> S>(
    orbit: Seq<S>,
    start: S,
    escaped: E,
    step: N,
) -> bool {
    &&& orbit.len() >= 1
    &&& orbit[0] == start
    &&& forall|k: int|
        1 <= k < orbit.len() ==> {
            &&& call_ensures(escaped, (orbit[k - 1],), false)
            &&& call_ensures(step, (orbit[k - 1],), #[trigger] orbit[k])
        }
}

/// Iterates `step` from `start` until `escaped` holds of the state or
/// `max_iter` steps have been taken. The escape test comes before each step,
/// so a start that has escaped takes no step.
///
/// A trajectory that ends below the limit ends in a state that has escaped;
/// one that never escapes ends at the limit.
pub fn escape_time<S: Copy, E: Fn(S) -> bool, N: Fn(S) -> S>(
    start: S,
    max_iter: u32,
    escaped: &E,
    step: &N,
) -> (end: Trajectory<S>)
    requires
        forall|s: S| #[trigger] call_requires(escaped, (s,)),
        forall|s: S| #[trigger] call_requires(step, (s,)),
    ensures
        end.iterations <= max_iter,
        end.iterations < max_iter ==> call_ensures(escaped, (end.last,), true),
        exists|orbit: Seq<S>|
            #![auto]
            orbit.len() == end.iterations + 1 && orbit.last() == end.last && is_orbit(
                orbit,
                start,
                escaped,
                step,
            ),
{
    let mut state = start;
    let mut iterations: u32 = 0;
    let ghost mut orbit: Seq<S> = seq![start];
    while iterations < max_iter
        invariant
            forall|s: S| #[trigger] call_requires(escaped, (s,)),
            forall|s: S| #[trigger] call_requires(step, (s,)),
            iterations <= max_iter,
            orbit.len() == iterations + 1,
            orbit.last() == state,
            is_orbit(orbit, start, escaped, step),
        decreases max_iter - iterations,
    {
        if escaped(state) {
            return Trajectory { iterations, last: state };
        }
        let ghost before = orbit;
        state = step(state);
        iterations = iterations + 1;
        proof {
            orbit = before.push(state);
            assert forall|k: int| 1 <= k < orbit.len() implies {
                &&& call_ensures(escaped, (orbit[k - 1],), false)
                &&& call_ensures(step, (orbit[k - 1],), #[trigger] orbit[k])
            } by {
                if k < before.len() {
                    assert(orbit[k] == before[k]);
                    assert(orbit[k - 1] == before[k - 1]);
                }
            }
        }
    }
    Trajectory { iterations, last: state }
}

/// The value of a trajectory for colouring. A point that did not escape
/// within the limit has the value `interior`, whatever its state; for any
/// other point the value is what `exterior` makes of the number of
/// iterations and the state reached.
pub fn escape_value<S: Copy, R, X: Fn(u32, S) -> R>(
    end: &Trajectory<S>,
    max_iter: u32,
    interior: R,
    exterior: &X,
) -> (value: R)
    requires
        end.iterations < max_iter ==> call_requires(exterior, (end.iterations, end.last)),
    ensures
        end.iterations >= max_iter ==> value == interior,
        end.iterations < max_iter ==> call_ensures(exterior, (end.iterations, end.last), value),
{
    if end.iterations < max_iter {
        exterior(end.iterations, end.last)
    } else {
        interior
    }
}

} // verus!
