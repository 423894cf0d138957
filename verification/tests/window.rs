use gunicorn_autoscaler::window::{Sample, State};
use gunicorn_autoscaler::window_model::Snapshot;

fn plus(a: f64, b: f64) -> f64 {
    a + b
}

fn snap(state: &mut State<f64>, now: u64, short: u64) -> Snapshot<f64> {
    let checked = state.checked_snapshot(now, short, plus).unwrap();
    let plain = state.snapshot(now, short, plus).unwrap();
    assert_eq!(checked.total, plain.total);
    assert_eq!(checked.short_total, plain.short_total);
    assert_eq!(checked.p95_ms, plain.p95_ms);
    plain
}

#[test]
fn an_empty_window_sums_up_to_nothing() {
    let mut s = State::new(20, 0.0);
    let r = snap(&mut s, 7, 3);
    assert_eq!((r.total, r.short_total, r.p95_ms), (0.0, 0.0, 0));
    assert_eq!((r.window_seconds, r.short_seconds), (20, 3));
    assert_eq!(r.workers_gauge, None);
}

#[test]
fn requests_are_summed_over_both_windows() {
    let mut s = State::new(5, 0.0);
    s.ingest_request(10, 1.0, plus).unwrap();
    s.ingest_request(10, 2.5, plus).unwrap();
    s.ingest_request(12, 4.0, plus).unwrap();
    s.ingest_request(13, 8.0, plus).unwrap();
    let r = snap(&mut s, 13, 2);
    assert_eq!((r.total, r.short_total), (15.5, 12.0));
    assert_eq!(snap(&mut s, 13, 1).short_total, 8.0);
    assert_eq!(snap(&mut s, 13, 0).short_total, 8.0);
    assert_eq!(snap(&mut s, 13, 99).short_total, 15.5);
    assert_eq!(snap(&mut s, 14, 1).short_total, 0.0);
}

#[test]
fn a_second_is_shown_as_long_as_the_window_reaches() {
    let mut s = State::new(3, 0.0);
    s.ingest_request(100, 1.0, plus).unwrap();
    s.ingest_duration_ms(100, 50).unwrap();
    assert_eq!(snap(&mut s, 102, 1).total, 1.0);
    assert_eq!(snap(&mut s, 102, 1).p95_ms, 50);
    assert_eq!(snap(&mut s, 103, 1).total, 0.0);
    assert_eq!(snap(&mut s, 103, 1).p95_ms, 0);
}

#[test]
fn a_window_of_no_seconds_shows_the_present_one() {
    for span in [0, 1] {
        let mut s = State::new(span, 0.0);
        s.ingest_request(4, 3.0, plus).unwrap();
        let r = snap(&mut s, 4, 1);
        assert_eq!((r.total, r.window_seconds), (3.0, 1));
        assert_eq!(snap(&mut s, 5, 1).total, 0.0);
    }
}

#[test]
fn looking_in_between_changes_nothing() {
    let fill = || {
        let mut s = State::new(10, 0.0);
        for t in 0..8 {
            s.ingest_request(t, (t + 1) as f64, plus).unwrap();
            s.ingest_duration_ms(t, 10 * t).unwrap();
        }
        s
    };
    let (mut a, mut b) = (fill(), fill());
    for t in 8..15 {
        snap(&mut a, t, 2);
    }
    let (ra, rb) = (snap(&mut a, 15, 9), snap(&mut b, 15, 9));
    assert_eq!((ra.total, ra.short_total, ra.p95_ms), (15.0, 8.0, 70));
    assert_eq!((rb.total, rb.short_total, rb.p95_ms), (15.0, 8.0, 70));
}

#[test]
fn a_clock_that_goes_back_adds_to_the_newest_second() {
    let mut s = State::new(10, 0.0);
    s.ingest_request(50, 1.0, plus).unwrap();
    s.ingest_request(49, 2.0, plus).unwrap();
    assert_eq!(snap(&mut s, 50, 1).short_total, 3.0);
}

#[test]
fn early_seconds_do_not_underflow() {
    let mut s = State::new(60, 0.0);
    s.ingest_request(0, 1.0, plus).unwrap();
    let r = snap(&mut s, 1, 30);
    assert_eq!((r.total, r.short_total, r.window_seconds), (1.0, 1.0, 60));
}

#[test]
fn p95_is_the_95th_percentile() {
    let mut s = State::new(20, 0.0);
    for ms in 1..=100 {
        s.ingest_duration_ms(ms / 10, ms).unwrap();
    }
    assert_eq!(snap(&mut s, 10, 1).p95_ms, 95);
}

#[test]
fn order_of_durations_does_not_matter() {
    let (mut a, mut b) = (State::new(5, 0.0), State::new(5, 0.0));
    for ms in [900, 5, 70, 70, 1] {
        a.ingest_duration_ms(3, ms).unwrap();
    }
    for ms in [1, 70, 5, 900, 70] {
        b.ingest_duration_ms(3, ms).unwrap();
    }
    assert_eq!(snap(&mut a, 3, 1).p95_ms, 900);
    assert_eq!(snap(&mut b, 3, 1).p95_ms, 900);
}

#[test]
fn durations_keep_three_digits() {
    let mut s = State::new(5, 0.0);
    s.ingest_duration_ms(1, 5000).unwrap();
    assert_eq!(snap(&mut s, 1, 1).p95_ms, 5003);
}

#[test]
fn durations_are_clamped() {
    let mut s = State::new(5, 0.0);
    s.ingest_duration_ms(1, 0).unwrap();
    assert_eq!(snap(&mut s, 1, 1).p95_ms, 1);
    let mut s = State::new(5, 0.0);
    s.ingest_duration_ms(1, u64::MAX).unwrap();
    assert_eq!(snap(&mut s, 1, 1).p95_ms, 1_000_447);
    let mut s = State::new(5, 0.0);
    s.ingest_duration_ms(1, 1_000_000).unwrap();
    assert_eq!(snap(&mut s, 1, 1).p95_ms, 1_000_447);
}

#[test]
fn p95_is_the_duration_at_its_rank() {
    let mut x: u64 = 12345;
    for size in [1, 2, 19, 20, 21, 40, 99, 100, 200, 500, 1000] {
        for most in [50, 2047, 900_000] {
            let mut s = State::new(60, 0.0);
            let mut all: Vec<u64> = Vec::new();
            for i in 0..size {
                x = (x * 1103515245 + 12345) % 2147483648;
                let ms = 1 + x % most;
                all.push(ms);
                s.ingest_duration_ms(i / 20, ms).unwrap();
            }
            all.sort();
            let v = all[((95 * size + 99) / 100 - 1) as usize];
            let p95 = snap(&mut s, (size - 1) / 20, 1).p95_ms;
            assert!(v <= p95 && 1000 * p95 <= 1001 * v);
            assert!(v >= 2048 || v == p95);
        }
    }
}

#[test]
fn p95_of_twenty_durations_is_the_nineteenth() {
    let mut s = State::new(20, 0.0);
    for i in 1..=20 {
        s.ingest_duration_ms(i / 3, 10 * i).unwrap();
    }
    assert_eq!(snap(&mut s, 6, 1).p95_ms, 190);
}

#[test]
fn single_milliseconds_are_told_apart_below_2048() {
    for (ms, p95) in [(1999, 1999), (2047, 2047), (2048, 2049), (2049, 2049), (4096, 4099)] {
        let mut s = State::new(5, 0.0);
        s.ingest_duration_ms(0, ms).unwrap();
        assert_eq!(snap(&mut s, 0, 1).p95_ms, p95);
    }
}

#[test]
fn looking_twice_shows_the_same() {
    let mut s = State::new(5, 0.0);
    s.ingest_request(3, 2.5, plus).unwrap();
    s.ingest_duration_ms(4, 70).unwrap();
    s.ingest(4, Sample::Workers(6), plus).unwrap();
    for short in [0, 1, 2, 9] {
        let a = s.snapshot(6, short, plus).unwrap();
        let b = s.snapshot(6, short, plus).unwrap();
        assert_eq!((a.total, a.short_total, a.p95_ms), (b.total, b.short_total, b.p95_ms));
        assert_eq!((a.window_seconds, a.short_seconds), (b.window_seconds, b.short_seconds));
        assert_eq!((a.workers_gauge, b.workers_gauge), (Some(6), Some(6)));
    }
    let (none, one) = (snap(&mut s, 6, 0), snap(&mut s, 6, 1));
    assert_eq!((none.short_total, none.short_seconds), (one.short_total, one.short_seconds));
}

#[test]
fn a_window_runs_out() {
    for span in [0, 1, 4] {
        let mut s = State::new(span, 0.0);
        for t in 0..=10 {
            s.ingest_request(t, 1.0, plus).unwrap();
            s.ingest_duration_ms(t, 80).unwrap();
        }
        s.ingest(10, Sample::Workers(5), plus).unwrap();
        let length = span.max(1);
        assert_eq!(snap(&mut s, 10 + length - 1, 99).total, 1.0);
        for now in [10 + length, 11 + length, 100] {
            let r = snap(&mut s, now, 99);
            assert_eq!((r.total, r.short_total, r.p95_ms), (0.0, 0.0, 0));
            assert_eq!(r.workers_gauge, Some(5));
        }
    }
}

#[test]
fn the_percentile_is_that_of_the_last_seconds() {
    let mut s = State::new(3, 0.0);
    for (t, ms) in [(0, 900), (1, 40), (1, 0), (2, 30), (4, 20)] {
        s.ingest_duration_ms(t, ms).unwrap();
        s.ingest_request(t, 1.0, plus).unwrap();
        snap(&mut s, t, 1);
    }
    assert_eq!(snap(&mut s, 4, 1).p95_ms, 30);
    assert_eq!(snap(&mut s, 5, 1).p95_ms, 20);
    assert_eq!(snap(&mut s, 7, 1).p95_ms, 0);
}

#[test]
fn order_does_not_matter_when_the_clock_goes_back() {
    let (mut a, mut b) = (State::new(5, 0.0), State::new(5, 0.0));
    for s in [&mut a, &mut b] {
        s.ingest_request(9, 1.0, plus).unwrap();
    }
    a.ingest_duration_ms(7, 300).unwrap();
    a.ingest_duration_ms(7, 20).unwrap();
    b.ingest_duration_ms(7, 20).unwrap();
    b.ingest_duration_ms(7, 300).unwrap();
    assert_eq!(snap(&mut a, 9, 1).p95_ms, 300);
    assert_eq!(snap(&mut b, 9, 1).p95_ms, 300);
}

#[test]
fn samples_go_where_they_belong() {
    let mut s = State::new(5, 0.0);
    s.ingest(2, Sample::Requests(1.5), plus).unwrap();
    s.ingest(2, Sample::DurationMs(40), plus).unwrap();
    s.ingest(2, Sample::Workers(6), plus).unwrap();
    let r = snap(&mut s, 2, 1);
    assert_eq!((r.total, r.p95_ms, r.workers_gauge), (1.5, 40, Some(6)));
    s.ingest(90, Sample::Workers(-1), plus).unwrap();
    assert_eq!(snap(&mut s, 2, 1).workers_gauge, Some(-1));
    assert_eq!(snap(&mut s, 90, 1).workers_gauge, Some(-1));
}

#[test]
fn counts_may_be_of_any_type() {
    let mut s = State::new(5, 0u64);
    s.ingest_request(1, 2, u64::wrapping_add).unwrap();
    s.ingest_request(1, u64::MAX, u64::wrapping_add).unwrap();
    assert_eq!(s.snapshot(1, 1, u64::wrapping_add).unwrap().total, 1);
}

#[test]
fn each_second_shows_the_requests_that_were_counted_in_it() {
    let mut s = State::new(4, 0.0);
    for (t, n) in [(10, 1.0), (10, 2.0), (11, 4.0), (13, 8.0), (13, 16.0)] {
        s.ingest_request(t, n, plus).unwrap();
        s.ingest_duration_ms(t, 5).unwrap();
        snap(&mut s, t, 1);
    }
    let mut sums = Vec::new();
    for short in 1..=4 {
        sums.push(snap(&mut s, 13, short).short_total);
    }
    assert_eq!(sums, vec![24.0, 24.0, 28.0, 31.0]);
    assert_eq!(snap(&mut s, 14, 4).total, 28.0);
    assert_eq!(snap(&mut s, 16, 4).total, 24.0);
    assert_eq!(snap(&mut s, 17, 4).total, 0.0);
}
