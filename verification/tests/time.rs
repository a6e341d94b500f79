use std::time::Duration;

use usch::time::{Time, TimeState};

#[test]
fn time_from_duration() {
    let time = Time::from_nanos(Duration::from_secs(1).as_nanos() as u64);
    assert_eq!(60, time.frame());

    let time = Time::from_nanos(Duration::from_secs(5).as_nanos() as u64);
    assert_eq!(300, time.frame());

    let time = Time::from_nanos(Duration::from_secs_f64(1f64 / 60f64).as_nanos() as u64);
    assert_eq!(1, time.frame());

    let time = Time::from_nanos(Duration::from_secs_f64(8f64 / 60f64).as_nanos() as u64);
    assert_eq!(8, time.frame());

    let time = Time::from_nanos(Duration::from_secs_f64(9f64 / 60f64).as_nanos() as u64);
    assert_eq!(9, time.frame());
}

#[test]
fn duration_from_time() {
    let duration = Duration::from_nanos(Time::from_frame(60).to_nanos());
    assert_eq!(Duration::from_secs(1), duration);

    let duration = Duration::from_nanos(Time::from_frame(300).to_nanos());
    assert_eq!(Duration::from_secs(5), duration);

    let duration = Duration::from_nanos(Time::from_frame(1).to_nanos());
    assert_eq!(Duration::from_secs_f64(1f64 / 60f64), duration);

    let duration = Duration::from_nanos(Time::from_frame(8).to_nanos());
    assert_eq!(Duration::from_secs_f64(8f64 / 60f64), duration);

    let duration = Duration::from_nanos(Time::from_frame(9).to_nanos());
    assert_eq!(Duration::from_secs_f64(9f64 / 60f64), duration);
}

#[test]
fn duration_round_trips_for_whole_ticks() {
    for n in [
        0u32,
        1,
        2,
        3,
        59,
        60,
        61,
        3600,
        216_000,
        24_999_998,
        24_999_999,
        25_000_000,
        u32::MAX - 1,
        u32::MAX,
    ] {
        let t = Time::from_frame(n);
        let back = Time::from_nanos(t.to_nanos());
        assert_eq!(n, back.frame());
    }
}

#[test]
fn tick_boundaries_never_round_up() {
    // A tick period is 16_666_666.67 ns. A duration half a nanosecond or
    // more below the boundary stays on the earlier tick; the boundary's own
    // nearest-nanosecond image sits on its tick.
    assert_eq!(0, Time::from_nanos(16_666_666).frame());
    assert_eq!(1, Time::from_nanos(16_666_667).frame());
    // An exact whole-nanosecond boundary (three ticks) maps to its own
    // tick, not the next.
    assert_eq!(3, Time::from_nanos(50_000_000).frame());
    assert_eq!(2, Time::from_nanos(49_999_999).frame());
}

#[test]
fn time_adds_and_subtracts_tickwise() {
    let a = Time::from_frame(90);
    let b = Time::from_frame(30);
    assert_eq!(120, a.add(b).frame());
    assert_eq!(60, a.sub(b).frame());
    assert_eq!(0, b.sub(b).frame());
}

#[test]
fn seek_then_pause_holds_position_exactly() {
    // The pure transitions, driven with explicit wall-clock readings.
    let s0 = TimeState { reference_nanos: 0, offset_nanos: 0, paused: false };
    let s1 = s0.seek_at(100, 5_000_000_000);
    let s2 = s1.set_paused_at(100, true);
    // However much wall time passes, the held position reads five seconds.
    assert_eq!(5_000_000_000, s2.elapsed_at(101));
    assert_eq!(5_000_000_000, s2.elapsed_at(7_777_000_000_000));
    // Unpausing resumes advancing from the held position.
    let s3 = s2.set_paused_at(9_000, false);
    assert_eq!(5_000_000_000, s3.elapsed_at(9_000));
    assert_eq!(5_000_000_250, s3.elapsed_at(9_250));
}

#[test]
fn seek_paused_holds_exactly_at_the_live_source() {
    let mut src = usch::time::SeekableTimeSource::now();
    src.seek_paused(5_000_000_000);
    assert!(src.is_paused());
    // Exactly the sought position, however much wall time passes, on every
    // query.
    assert_eq!(5_000_000_000, src.elapsed());
    assert_eq!(5_000_000_000, src.elapsed());
    src.set_paused(false);
    assert!(src.elapsed() >= 5_000_000_000);
}

#[test]
fn live_time_source_seek_and_pause() {
    let mut src = usch::time::SeekableTimeSource::now();
    assert!(!src.is_paused());
    src.seek(5_000_000_000);
    src.set_paused(true);
    assert!(src.is_paused());
    // Paused: the position is held wherever the pause caught it, at or
    // after the sought position, and stays put across queries.
    let first = src.elapsed();
    assert!(first >= 5_000_000_000);
    assert_eq!(first, src.elapsed());
    // Pausing the paused source moves nothing.
    src.set_paused(true);
    assert_eq!(first, src.elapsed());
    src.set_paused(false);
    assert!(!src.is_paused());
    assert!(src.elapsed() >= first);
}
