use matterhorn::segment::{bracket, Bracket};
use std::cell::RefCell;

/// Where `t` lies among the given times.
fn locate(times: &[f32], t: f32) -> Bracket {
    bracket(times.len(), &|k: usize| t <= times[k])
}

#[test]
fn no_control_point() {
    assert_eq!(locate(&[], 0.5), Bracket::Empty);
}

#[test]
fn single_control_point() {
    assert_eq!(locate(&[2.0], 0.5), Bracket::Single);
    assert_eq!(locate(&[2.0], 2.0), Bracket::Single);
    assert_eq!(locate(&[2.0], 9.0), Bracket::Single);
}

#[test]
fn position_inside_a_segment() {
    let times = [0.0f32, 1.0, 2.5, 4.0];
    assert_eq!(locate(&times, 0.5), Bracket::Between { prev: 0, next: 1 });
    assert_eq!(locate(&times, 1.5), Bracket::Between { prev: 1, next: 2 });
    assert_eq!(locate(&times, 3.9), Bracket::Between { prev: 2, next: 3 });
}

#[test]
fn position_on_a_control_point_belongs_to_the_segment_that_ends_there() {
    let times = [0.0f32, 1.0, 2.5, 4.0];
    assert_eq!(locate(&times, 1.0), Bracket::Between { prev: 0, next: 1 });
    assert_eq!(locate(&times, 2.5), Bracket::Between { prev: 1, next: 2 });
    assert_eq!(locate(&times, 4.0), Bracket::Between { prev: 2, next: 3 });
    assert_eq!(locate(&times, 0.0), Bracket::Between { prev: 0, next: 1 });
}

#[test]
fn position_before_the_first_point_is_bracketed_by_the_first_two() {
    let times = [1.0f32, 2.0, 3.0];
    assert_eq!(locate(&times, -5.0), Bracket::Between { prev: 0, next: 1 });
}

#[test]
fn position_after_the_last_point() {
    let times = [1.0f32, 2.0, 3.0];
    assert_eq!(locate(&times, 3.5), Bracket::Beyond { last: 2 });
    assert_eq!(locate(&[0.0, 1.0], 7.0), Bracket::Beyond { last: 1 });
}

#[test]
fn first_point_is_never_asked_and_the_search_stops_at_the_first_hit() {
    let asked = RefCell::new(Vec::new());
    let found = bracket(6, &|k: usize| {
        asked.borrow_mut().push(k);
        k >= 3
    });
    assert_eq!(found, Bracket::Between { prev: 2, next: 3 });
    assert_eq!(*asked.borrow(), vec![1, 2, 3]);
}

#[test]
fn equal_times_pick_the_first_of_them() {
    let times = [0.0f32, 2.0, 2.0, 2.0, 5.0];
    assert_eq!(locate(&times, 2.0), Bracket::Between { prev: 0, next: 1 });
    assert_eq!(locate(&times, 2.1), Bracket::Between { prev: 3, next: 4 });
}
