use lot::timeline::{isqrt, ScheduleError, Timeline, MAX_LOAD, NANOS_PER_SEC};
use std::time::Duration;

fn offsets(start_rate: u64, end_rate: u64, duration: u64) -> Vec<u64> {
    let mut timeline = Timeline::new(start_rate, end_rate, duration).unwrap();
    let mut out = Vec::new();
    while let Some(offset) = timeline.next() {
        out.push(offset);
    }
    out
}

#[test]
fn test_ramping_arrival_rate() {
    let mut timeline = Timeline::new(100, 1, 1000 * NANOS_PER_SEC).unwrap();
    let mut count: u64 = 0;
    while let Some(next_tick) = timeline.next() {
        println!("duration: {:?}", Duration::from_nanos(next_tick));
        count += 1;
    }
    assert_eq!(count, 50500);
}

#[test]
fn ramp_down_has_exact_offsets() {
    let all = offsets(100, 1, 1000 * NANOS_PER_SEC);
    assert_eq!(all.len(), 50500);
    assert_eq!(&all[..4], &[10000049, 20000198, 30000445, 40000792]);
    assert_eq!(&all[50497..], &[998166419807, 999045132692, 1000000000000]);
}

#[test]
fn ramp_down_agrees_with_the_closed_form_in_floating_point() {
    let all = offsets(100, 1, 1000 * NANOS_PER_SEC);
    let (from, to, duration) = (100.0f64, 1.0f64, 1000.0f64);
    for (k, nanos) in all.iter().enumerate() {
        let i = (k + 1) as f64;
        let disc = from * from * duration * duration + 2.0 * i * (to - from) * duration;
        let secs = (-from * duration + disc.max(0.0).sqrt()) / (to - from);
        let want = secs * 1e9;
        assert!((*nanos as f64 - want).abs() < 1000.0, "instance {}: {} vs {}", k + 1, nanos, want);
    }
}

#[test]
fn ramp_up_has_exact_offsets() {
    assert_eq!(offsets(1, 2, NANOS_PER_SEC), vec![732050807, 1236067977]);
    assert_eq!(
        offsets(1, 3, 2_500_000_000),
        vec![765564437, 1311737691, 1760398644, 2150367627, 2500000000]
    );
    assert_eq!(offsets(0, 4, NANOS_PER_SEC), vec![707106781, 1000000000]);
}

#[test]
fn ramp_to_zero_clamps_the_discriminant() {
    assert_eq!(offsets(2, 0, NANOS_PER_SEC), vec![1000000000]);
    assert_eq!(offsets(5, 1, NANOS_PER_SEC), vec![219223593, 500000000, 1000000000]);
}

#[test]
fn constant_rate_is_evenly_spaced() {
    let all = offsets(10, 10, NANOS_PER_SEC);
    assert_eq!(all.len(), 10);
    for (k, nanos) in all.iter().enumerate() {
        assert_eq!(*nanos, k as u64 * 100_000_000);
    }
    assert_eq!(offsets(3, 3, NANOS_PER_SEC), vec![0, 333333333, 666666666]);
}

#[test]
fn constant_rate_rounds_the_total_up() {
    let timeline = Timeline::new(7, 7, 1_500_000_000).unwrap();
    assert_eq!(timeline.total_count(), 11);
    let all = offsets(7, 7, 1_500_000_000);
    assert_eq!(all.len(), 11);
    assert_eq!(&all[..3], &[0, 142857142, 285714285]);
    assert_eq!(all[10], 1428571428);
}

#[test]
fn constant_rate_agrees_with_floating_point() {
    let rate = 7.0f64;
    for (k, nanos) in offsets(7, 7, 1_500_000_000).iter().enumerate() {
        let want = (k as f64) / rate * 1e9;
        assert!((*nanos as f64 - want).abs() <= 1.0);
    }
}

#[test]
fn ramp_total_is_the_trapezoid_rounded_up() {
    assert_eq!(Timeline::new(1, 2, NANOS_PER_SEC).unwrap().total_count(), 2);
    assert_eq!(Timeline::new(100, 1, 1000 * NANOS_PER_SEC).unwrap().total_count(), 50500);
    assert_eq!(Timeline::new(1, 3, 2_500_000_000).unwrap().total_count(), 5);
    assert_eq!(Timeline::new(0, 1, 1).unwrap().total_count(), 1);
    assert_eq!(Timeline::new(5, 9, 0).unwrap().total_count(), 0);
}

#[test]
fn idle_stage_is_empty() {
    let mut timeline = Timeline::new(0, 0, 60 * NANOS_PER_SEC).unwrap();
    assert_eq!(timeline.total_count(), 0);
    assert_eq!(timeline.next(), None);
    assert_eq!(timeline.next(), None);
}

#[test]
fn exhausted_schedule_stays_exhausted() {
    let mut timeline = Timeline::new(2, 2, NANOS_PER_SEC).unwrap();
    assert_eq!(timeline.next(), Some(0));
    assert_eq!(timeline.next(), Some(500_000_000));
    assert_eq!(timeline.next(), None);
    assert_eq!(timeline.next(), None);
}

#[test]
fn offsets_never_decrease_and_end_within_the_stage() {
    for (a, b, d) in [(100u64, 1u64, 1000 * NANOS_PER_SEC), (1, 3, 2_500_000_000), (10, 10, NANOS_PER_SEC)] {
        let all = offsets(a, b, d);
        for pair in all.windows(2) {
            assert!(pair[0] < pair[1]);
        }
        assert!(*all.last().unwrap() <= d);
    }
}

#[test]
fn instance_beyond_the_ramp_is_late() {
    let all = offsets(1, 2, NANOS_PER_SEC);
    assert_eq!(all[0], 732050807);
    assert!(all[1] > NANOS_PER_SEC);
}

#[test]
fn very_high_rate_repeats_offsets() {
    assert_eq!(offsets(2_000_000_000, 2_000_000_000, 2), vec![0, 0, 1, 1]);
}

#[test]
fn same_stage_gives_same_offsets() {
    assert_eq!(offsets(3, 17, 5 * NANOS_PER_SEC), offsets(3, 17, 5 * NANOS_PER_SEC));
    let first = Timeline::new(3, 17, 5 * NANOS_PER_SEC).unwrap();
    let mut copy = first;
    let mut other = Timeline::new(3, 17, 5 * NANOS_PER_SEC).unwrap();
    assert_eq!(first.total_count(), other.total_count());
    assert_eq!(copy.next(), other.next());
}

#[test]
fn too_large_a_stage_is_refused() {
    assert_eq!(Timeline::new(u64::MAX, 1, 2).err(), Some(ScheduleError::TooLarge));
    assert_eq!(Timeline::new(1, 2, MAX_LOAD).err(), Some(ScheduleError::TooLarge));
    assert!(Timeline::new(1, 1, MAX_LOAD).is_ok());
    assert!(Timeline::new(MAX_LOAD, 0, 1).is_ok());
    assert_eq!(Timeline::new(MAX_LOAD, 0, 1).unwrap().total_count(), 2305843010);
}

#[test]
fn largest_stage_is_scheduled() {
    let mut timeline = Timeline::new(1, 1, MAX_LOAD).unwrap();
    assert_eq!(timeline.total_count(), 4611686019);
    assert_eq!(timeline.next(), Some(0));
    assert_eq!(timeline.next(), Some(1_000_000_000));
    let mut ramp = Timeline::new(0, 1, MAX_LOAD).unwrap();
    assert_eq!(ramp.total_count(), 2305843010);
    assert_eq!(ramp.next(), Some(96038388349944));
}

#[test]
fn integer_square_root_rounds_down() {
    assert_eq!(isqrt(0), 0);
    assert_eq!(isqrt(1), 1);
    assert_eq!(isqrt(3), 1);
    assert_eq!(isqrt(4), 2);
    assert_eq!(isqrt(99), 9);
    assert_eq!(isqrt(3_000_000_000_000_000_000), 1732050807);
    assert_eq!(isqrt(1u128 << 127), 13043817825332782212);
    assert_eq!(isqrt(u128::MAX), 18446744073709551615);
}
