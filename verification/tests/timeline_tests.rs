use matterhorn::timeline::{advance, resolve_times, Clock};

/// Resolves `absolute` seconds on a timeline of `duration` seconds.
fn resolve(duration: f32, looping: bool, endless_zoom: bool, absolute: f32) -> (f32, f32) {
    resolve_times(
        duration > 0.0,
        looping,
        endless_zoom,
        absolute,
        0.0,
        &|t: f32| t % duration,
        &|t: f32| t.min(duration),
    )
}

/// One tick of `dt` seconds on a timeline of `duration` seconds.
fn tick(t: f32, playing: bool, looping: bool, duration: f32, dt: f32) -> (f32, bool) {
    let after = advance(
        Clock { t, playing },
        looping,
        duration,
        &|t: f32| t + dt,
        &|t: f32| duration > 0.0 && t >= duration,
        &|t: f32| t % duration,
    );
    (after.t, after.playing)
}

#[test]
fn looping_timeline_wraps_the_key_time() {
    assert_eq!(resolve(5.0, true, false, 12.0), (2.0, 2.0));
}

#[test]
fn clamped_timeline_holds_at_the_duration() {
    assert_eq!(resolve(5.0, false, false, 12.0), (5.0, 5.0));
    assert_eq!(resolve(5.0, false, false, 3.25), (3.25, 3.25));
}

#[test]
fn endless_zoom_runs_on_absolute_time() {
    assert_eq!(resolve(5.0, true, true, 12.0), (2.0, 12.0));
    assert_eq!(resolve(5.0, false, true, 12.0), (5.0, 12.0));
    assert_eq!(resolve(5.0, true, true, 4.0), (4.0, 4.0));
}

#[test]
fn timeline_without_duration_has_key_time_zero() {
    assert_eq!(resolve(0.0, true, false, 12.0), (0.0, 0.0));
    assert_eq!(resolve(0.0, false, false, 12.0), (0.0, 0.0));
    assert_eq!(resolve(-1.0, true, true, 12.0), (0.0, 12.0));
    assert_eq!(resolve(0.0, false, true, 7.5), (0.0, 7.5));
}

#[test]
fn unbounded_timeline_does_not_ask_for_wrapping() {
    let times = resolve_times(
        false,
        true,
        false,
        9u32,
        0u32,
        &|_t: u32| -> u32 { panic!("wrapped") },
        &|_t: u32| -> u32 { panic!("clamped") },
    );
    assert_eq!(times, (0, 0));
}

#[test]
fn paused_clock_stays() {
    assert_eq!(tick(1.5, false, true, 5.0, 0.25), (1.5, false));
    assert_eq!(tick(9.0, false, false, 5.0, 0.25), (9.0, false));
}

#[test]
fn playing_clock_moves_on() {
    assert_eq!(tick(1.5, true, false, 5.0, 0.25), (1.75, true));
    assert_eq!(tick(1.5, true, true, 5.0, 0.25), (1.75, true));
}

#[test]
fn looping_clock_wraps_at_the_end() {
    assert_eq!(tick(4.5, true, true, 5.0, 1.0), (0.5, true));
    assert_eq!(tick(4.0, true, true, 5.0, 1.0), (0.0, true));
}

#[test]
fn clock_that_does_not_loop_stops_at_the_end() {
    assert_eq!(tick(4.5, true, false, 5.0, 1.0), (5.0, false));
    assert_eq!(tick(4.0, true, false, 5.0, 1.0), (5.0, false));
}

#[test]
fn clock_without_duration_runs_on() {
    assert_eq!(tick(100.0, true, false, 0.0, 1.0), (101.0, true));
    assert_eq!(tick(100.0, true, true, 0.0, 1.0), (101.0, true));
}

#[test]
fn ticks_add_up_over_a_loop() {
    let mut clock = (0u32, true);
    let mut seen = Vec::new();
    for _ in 0..7 {
        let after = advance(
            Clock { t: clock.0, playing: clock.1 },
            true,
            3u32,
            &|t: u32| t + 1,
            &|t: u32| t >= 3,
            &|t: u32| t % 3,
        );
        clock = (after.t, after.playing);
        seen.push(clock.0);
    }
    assert_eq!(seen, vec![1, 2, 0, 1, 2, 0, 1]);
}
