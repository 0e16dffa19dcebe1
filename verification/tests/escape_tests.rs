use matterhorn::escape::{escape_time, escape_value, Trajectory};
use std::cell::Cell;

/// One step of `z <- z^2 + c` in single precision.
fn quadratic(z: (f32, f32), c: (f32, f32)) -> (f32, f32) {
    let (zx, zy) = z;
    (zx * zx - zy * zy + c.0, 2.0 * zx * zy + c.1)
}

fn beyond(z: (f32, f32), radius: f32) -> bool {
    z.0 * z.0 + z.1 * z.1 > radius * radius
}

#[test]
fn counts_the_steps_before_the_escape() {
    let end = escape_time(1u64, 100, &|n: u64| n > 1000, &|n: u64| n * 2);
    assert_eq!(end.iterations, 10);
    assert_eq!(end.last, 1024);
}

#[test]
fn start_that_has_escaped_takes_no_step() {
    let steps = Cell::new(0u32);
    let end = escape_time(
        5000u64,
        100,
        &|n: u64| n > 1000,
        &|n: u64| {
            steps.set(steps.get() + 1);
            n * 2
        },
    );
    assert_eq!(end.iterations, 0);
    assert_eq!(end.last, 5000);
    assert_eq!(steps.get(), 0);
}

#[test]
fn trajectory_that_never_escapes_ends_at_the_limit() {
    let end = escape_time(7u32, 250, &|_n: u32| false, &|n: u32| n);
    assert_eq!(end.iterations, 250);
    assert_eq!(end.last, 7);
}

#[test]
fn limit_of_zero_takes_no_step_and_asks_nothing() {
    let asked = Cell::new(0u32);
    let end = escape_time(
        3u32,
        0,
        &|_n: u32| {
            asked.set(asked.get() + 1);
            true
        },
        &|n: u32| n + 1,
    );
    assert_eq!(end.iterations, 0);
    assert_eq!(end.last, 3);
    assert_eq!(asked.get(), 0);
}

#[test]
fn escape_at_the_limit_is_not_noticed() {
    let end = escape_time(0u32, 4, &|n: u32| n >= 4, &|n: u32| n + 1);
    assert_eq!(end.iterations, 4);
    assert_eq!(end.last, 4);
    let sooner = escape_time(0u32, 5, &|n: u32| n >= 4, &|n: u32| n + 1);
    assert_eq!(sooner.iterations, 4);
    assert_eq!(sooner.last, 4);
}

#[test]
fn state_is_stepped_once_per_iteration() {
    let steps = Cell::new(0u32);
    let end = escape_time(
        0u32,
        1000,
        &|n: u32| n >= 37,
        &|n: u32| {
            steps.set(steps.get() + 1);
            n + 1
        },
    );
    assert_eq!(end.iterations, 37);
    assert_eq!(steps.get(), 37);
}

#[test]
fn mandelbrot_origin_never_escapes() {
    let c = (0.0f32, 0.0f32);
    let end = escape_time(
        (0.0f32, 0.0f32),
        1000,
        &|z: (f32, f32)| beyond(z, 4.0),
        &|z: (f32, f32)| quadratic(z, c),
    );
    assert_eq!(end.iterations, 1000);
    assert_eq!(end.last, (0.0, 0.0));
    let smooth = escape_value(&end, 1000, 0.0f32, &|i: u32, _z: (f32, f32)| i as f32 / 1000.0);
    assert_eq!(smooth, 0.0);
}

#[test]
fn mandelbrot_point_outside_escapes_after_three_steps() {
    let c = (1.0f32, 0.0f32);
    let end = escape_time(
        (0.0f32, 0.0f32),
        800,
        &|z: (f32, f32)| beyond(z, 4.0),
        &|z: (f32, f32)| quadratic(z, c),
    );
    assert_eq!(end.iterations, 3);
    assert_eq!(end.last, (5.0, 0.0));
}

#[test]
fn julia_at_the_origin_escapes_after_a_fixed_count() {
    let c = (-0.8f32, 0.156f32);
    let run = || {
        escape_time(
            (0.0f32, 0.0f32),
            800,
            &|z: (f32, f32)| beyond(z, 4.0),
            &|z: (f32, f32)| quadratic(z, c),
        )
    };
    let first = run();
    let second = run();
    assert_eq!(first.iterations, 223);
    assert_eq!(second.iterations, first.iterations);
    assert_eq!(second.last, first.last);
    assert!(beyond(first.last, 4.0));
}

#[test]
fn interior_value_does_not_depend_on_the_state() {
    for max_iter in [0u32, 1, 50, 20_000] {
        for last in [0i64, -3, 1 << 40] {
            let end = Trajectory { iterations: max_iter, last };
            let value = escape_value(&end, max_iter, 7u8, &|_i: u32, _s: i64| -> u8 {
                panic!("asked for an exterior value")
            });
            assert_eq!(value, 7);
        }
    }
}

#[test]
fn exterior_value_is_made_of_count_and_state() {
    let end = Trajectory { iterations: 12, last: 30u32 };
    let value = escape_value(&end, 800, 0u32, &|i: u32, s: u32| i * 100 + s);
    assert_eq!(value, 1230);
}
