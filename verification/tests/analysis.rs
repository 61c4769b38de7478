use camera_latency_test::analysis::{
    build_report, build_report_from_ms, percentile, summarize, LatencySample, MeasurementRun,
};
use camera_latency_test::arithmetic::{key_of_bits, Arithmetic, Statistical};
use camera_latency_test::stable_sort::stable_order;

struct Ieee;

impl Arithmetic for Ieee {
    type Value = f64;

    fn from_count(n: u64) -> f64 {
        n as f64
    }

    fn plus(a: f64, b: f64) -> f64 {
        a + b
    }

    fn minus(a: f64, b: f64) -> f64 {
        a - b
    }

    fn times(a: f64, b: f64) -> f64 {
        a * b
    }

    fn over(a: f64, b: f64) -> f64 {
        a / b
    }
}

impl Statistical for Ieee {
    fn sqrt(a: f64) -> f64 {
        a.sqrt()
    }

    fn order_key(a: f64) -> i64 {
        key_of_bits(a.to_bits())
    }
}

fn samples_of(latencies: &[f64]) -> Vec<LatencySample<f64>> {
    latencies
        .iter()
        .enumerate()
        .map(|(i, latency)| LatencySample {
            transition_id: i as u64,
            display_ms: 0.0,
            camera_ms: *latency,
            latency_ms: *latency,
        })
        .collect()
}

/// Percentile by floating point ranks.
fn float_percentile(sorted: &[f64], pct: f64) -> f64 {
    if sorted.len() == 1 {
        return sorted[0];
    }
    let rank = pct.clamp(0.0, 1.0) * (sorted.len() - 1) as f64;
    let lo = rank.floor() as usize;
    let hi = rank.ceil() as usize;
    if lo == hi {
        return sorted[lo];
    }
    let w = rank - lo as f64;
    sorted[lo] * (1.0 - w) + sorted[hi] * w
}

/// A repeatable stream of numbers.
fn noise(seed: &mut u64) -> f64 {
    *seed = seed.wrapping_mul(6364136223846793005).wrapping_add(1442695040888963407);
    ((*seed >> 33) % 100_000) as f64 / 997.0 - 20.0
}

#[test]
fn aligns_transition_ids() {
    let run = MeasurementRun {
        display_events_ms: vec![(0, 10.0), (1, 20.0), (2, 30.0)],
        camera_events_ms: vec![(0, 40.0), (2, 65.0)],
    };

    let report = build_report::<Ieee>(&run);
    assert_eq!(report.samples.len(), 2);
    assert_eq!(report.dropped_display_events, 1);
    assert_eq!(report.samples[0].latency_ms, 30.0);
    assert_eq!(report.samples[1].latency_ms, 35.0);
}

#[test]
fn report_keeps_ids_and_timestamps() {
    let run = MeasurementRun {
        display_events_ms: vec![(0, 10.0), (1, 20.0), (2, 30.0)],
        camera_events_ms: vec![(0, 40.0), (2, 65.0), (7, 90.0)],
    };
    let report = build_report::<Ieee>(&run);
    assert_eq!(report.samples[1].transition_id, 2);
    assert_eq!(report.samples[1].display_ms, 30.0);
    assert_eq!(report.samples[1].camera_ms, 65.0);
    assert_eq!(report.dropped_camera_events, 1);
    let stats = report.stats.unwrap();
    assert_eq!(stats.count, 2);
    assert_eq!(stats.mean_ms, 32.5);
    assert_eq!(stats.median_ms, 32.5);
    assert_eq!(stats.min_ms, 30.0);
    assert_eq!(stats.max_ms, 35.0);
    assert_eq!(stats.stddev_ms, 2.5);
}

#[test]
fn empty_run_has_no_stats() {
    let run = MeasurementRun { display_events_ms: vec![], camera_events_ms: vec![(0, 1.0)] };
    let report = build_report::<Ieee>(&run);
    assert!(report.samples.is_empty());
    assert!(report.stats.is_none());
    assert_eq!(report.dropped_display_events, 0);
    assert_eq!(report.dropped_camera_events, 1);

    let run = MeasurementRun { display_events_ms: vec![(0, 1.0)], camera_events_ms: vec![] };
    let report = build_report::<Ieee>(&run);
    assert!(report.stats.is_none());
    assert_eq!(report.dropped_display_events, 1);
    assert_eq!(report.dropped_camera_events, 0);
}

#[test]
fn unordered_ids_are_skipped_for_good() {
    let run = MeasurementRun {
        display_events_ms: vec![(5, 1.0), (2, 2.0), (6, 3.0)],
        camera_events_ms: vec![(2, 10.0), (5, 11.0), (6, 12.0), (6, 13.0)],
    };
    let report = build_report::<Ieee>(&run);
    let ids: Vec<u64> = report.samples.iter().map(|s| s.transition_id).collect();
    assert_eq!(ids, vec![5, 6]);
    assert_eq!(report.samples[1].camera_ms, 12.0);
    assert_eq!(report.dropped_display_events, 1);
    assert_eq!(report.dropped_camera_events, 2);
}

#[test]
fn increasing_logs_match_on_common_ids() {
    let display: Vec<(u64, f64)> = (0..40u64).map(|i| (i, i as f64)).collect();
    let camera: Vec<(u64, f64)> = (0..60u64)
        .filter(|i| i % 3 != 1)
        .map(|i| (i, i as f64 + 7.0))
        .collect();
    let seen = camera.len();
    let report = build_report::<Ieee>(&MeasurementRun {
        display_events_ms: display,
        camera_events_ms: camera,
    });
    let ids: Vec<u64> = report.samples.iter().map(|s| s.transition_id).collect();
    let expected: Vec<u64> = (0..40u64).filter(|i| i % 3 != 1).collect();
    assert_eq!(ids, expected);
    assert!(report.samples.iter().all(|s| s.latency_ms == 7.0));
    assert_eq!(report.samples.len() + report.dropped_display_events, 40);
    assert_eq!(report.samples.len() + report.dropped_camera_events, seen);
}

#[test]
fn report_from_ms_pairs_by_position() {
    let report = build_report_from_ms::<Ieee>(vec![0.0, 10.0, 20.0], vec![5.5, 14.0]);
    assert_eq!(report.samples.len(), 2);
    assert_eq!(report.samples[0].transition_id, 0);
    assert_eq!(report.samples[0].latency_ms, 5.5);
    assert_eq!(report.samples[1].transition_id, 1);
    assert_eq!(report.samples[1].latency_ms, 4.0);
    assert_eq!(report.dropped_display_events, 1);
    assert_eq!(report.dropped_camera_events, 0);
    assert_eq!(report.stats.unwrap().mean_ms, 4.75);
}

#[test]
fn summarize_of_nothing_is_none() {
    assert!(summarize::<Ieee>(&[]).is_none());
}

#[test]
fn summarize_of_one_latency() {
    let stats = summarize::<Ieee>(&samples_of(&[12.25])).unwrap();
    assert_eq!(stats.count, 1);
    assert_eq!(stats.mean_ms, 12.25);
    assert_eq!(stats.median_ms, 12.25);
    assert_eq!(stats.p95_ms, 12.25);
    assert_eq!(stats.min_ms, 12.25);
    assert_eq!(stats.max_ms, 12.25);
    assert_eq!(stats.stddev_ms, 0.0);
}

#[test]
fn summarize_exact_values() {
    let stats = summarize::<Ieee>(&samples_of(&[4.0, 2.0, 8.0, 6.0, 10.0])).unwrap();
    assert_eq!(stats.count, 5);
    assert_eq!(stats.mean_ms, 6.0);
    assert_eq!(stats.median_ms, 6.0);
    assert_eq!(stats.min_ms, 2.0);
    assert_eq!(stats.max_ms, 10.0);
    assert_eq!(stats.stddev_ms, 8.0f64.sqrt());
    assert!((stats.p95_ms - 9.6).abs() < 1e-12);
}

#[test]
fn summarize_agrees_with_floating_point_reference() {
    let mut seed = 11;
    for n in [2usize, 3, 4, 20, 21, 22, 41, 100, 101, 777] {
        let values: Vec<f64> = (0..n).map(|_| noise(&mut seed)).collect();
        let mut sorted = values.clone();
        sorted.sort_by(f64::total_cmp);
        let mean = sorted.iter().sum::<f64>() / n as f64;
        let variance = sorted.iter().map(|v| (v - mean) * (v - mean)).sum::<f64>() / n as f64;
        let stats = summarize::<Ieee>(&samples_of(&values)).unwrap();
        assert_eq!(stats.count, n);
        assert_eq!(stats.mean_ms, mean);
        assert_eq!(stats.median_ms, float_percentile(&sorted, 0.5));
        assert_eq!(stats.p95_ms, float_percentile(&sorted, 0.95));
        assert_eq!(stats.min_ms, sorted[0]);
        assert_eq!(stats.max_ms, sorted[n - 1]);
        assert_eq!(stats.stddev_ms, variance.sqrt());
    }
}

#[test]
fn percentile_agrees_with_floating_point_ranks() {
    let values: Vec<f64> = (0..6000).map(|i| (i * i) as f64 / 7.0).collect();
    for n in 1..6000usize {
        let sorted = &values[..n];
        assert_eq!(percentile::<Ieee>(sorted, 1, 2), float_percentile(sorted, 0.5));
        assert_eq!(percentile::<Ieee>(sorted, 95, 100), float_percentile(sorted, 0.95));
    }
}

#[test]
fn percentiles_span_the_values() {
    let sorted = [1.0, 2.0, 4.0, 8.0];
    assert_eq!(percentile::<Ieee>(&sorted, 0, 100), 1.0);
    assert_eq!(percentile::<Ieee>(&sorted, 100, 100), 8.0);
    assert_eq!(percentile::<Ieee>(&sorted, 250, 100), 8.0);
    assert_eq!(percentile::<Ieee>(&sorted, 50, 100), 3.0);
    assert_eq!(percentile::<Ieee>(&sorted, 1, 3), 2.0);
    assert_eq!(percentile::<Ieee>(&sorted, 5, 12), 2.5);
}

#[test]
fn special_values_sort_by_the_total_order() {
    let values = [f64::NAN, 1.0, -0.0, 0.0, f64::INFINITY, -3.0, f64::NEG_INFINITY, -f64::NAN];
    let keys: Vec<i64> = values.iter().map(|v| Ieee::order_key(*v)).collect();
    let order = stable_order(&keys);
    let mut sorted = values.to_vec();
    sorted.sort_by(f64::total_cmp);
    let bits: Vec<u64> = order.iter().map(|i| values[*i].to_bits()).collect();
    let expected: Vec<u64> = sorted.iter().map(|v| v.to_bits()).collect();
    assert_eq!(bits, expected);
}

#[test]
fn keys_of_bits_order_as_floating_point_does() {
    let values = [
        -f64::NAN, f64::NEG_INFINITY, f64::MIN, -1.5, -f64::MIN_POSITIVE, -0.0, 0.0, 5e-324, 1.0,
        2.5, f64::MAX, f64::INFINITY, f64::NAN,
    ];
    for a in values {
        for b in values {
            let (p, q) = (key_of_bits(a.to_bits()), key_of_bits(b.to_bits()));
            assert_eq!(p.cmp(&q), a.total_cmp(&b));
        }
    }
    assert_eq!(key_of_bits(0), 0);
    assert_eq!(key_of_bits(1 << 63), -1);
    assert_eq!(key_of_bits(u64::MAX), i64::MIN);
}

#[test]
fn exchanged_logs_turn_the_report_round() {
    let display = vec![(0, 10.0), (1, 20.0), (1, 21.0), (4, 30.0)];
    let camera = vec![(1, 50.0), (2, 60.0), (4, 90.0), (4, 91.0), (9, 99.0)];
    let report = build_report::<Ieee>(&MeasurementRun {
        display_events_ms: display.clone(),
        camera_events_ms: camera.clone(),
    });
    let turned = build_report::<Ieee>(&MeasurementRun {
        display_events_ms: camera,
        camera_events_ms: display,
    });
    assert_eq!(report.samples.len(), 2);
    assert_eq!(turned.samples.len(), 2);
    assert_eq!((report.dropped_display_events, report.dropped_camera_events), (2, 3));
    assert_eq!((turned.dropped_display_events, turned.dropped_camera_events), (3, 2));
    for (a, b) in report.samples.iter().zip(&turned.samples) {
        assert_eq!(a.transition_id, b.transition_id);
        assert_eq!(a.latency_ms, -b.latency_ms);
    }
}

#[test]
fn repeated_ids_are_sampled_as_often_as_both_have_them() {
    let log = |ids: &[u64]| -> Vec<(u64, f64)> { ids.iter().map(|id| (*id, 0.0)).collect() };
    let report = build_report::<Ieee>(&MeasurementRun {
        display_events_ms: log(&[1, 1, 1, 2, 3, 3, 5]),
        camera_events_ms: log(&[1, 1, 2, 2, 4, 5, 5]),
    });
    let ids: Vec<u64> = report.samples.iter().map(|s| s.transition_id).collect();
    assert_eq!(ids, vec![1, 1, 2, 5]);
}

#[test]
fn statistics_do_not_depend_on_the_order() {
    let mut seed = 5;
    let values: Vec<f64> = (0..97).map(|_| noise(&mut seed)).collect();
    let mut turned = values.clone();
    turned.reverse();
    turned.swap(3, 60);
    let a = summarize::<Ieee>(&samples_of(&values)).unwrap();
    let b = summarize::<Ieee>(&samples_of(&turned)).unwrap();
    assert_eq!(a.count, b.count);
    for (x, y) in [
        (a.mean_ms, b.mean_ms),
        (a.median_ms, b.median_ms),
        (a.p95_ms, b.p95_ms),
        (a.min_ms, b.min_ms),
        (a.max_ms, b.max_ms),
        (a.stddev_ms, b.stddev_ms),
    ] {
        assert_eq!(x.to_bits(), y.to_bits());
    }
}

#[test]
fn percentiles_grow_with_the_percentage() {
    let sorted: Vec<f64> = (0..23).map(|i| (i * i) as f64).collect();
    for p in 0..120u64 {
        assert!(percentile::<Ieee>(&sorted, p, 100) <= percentile::<Ieee>(&sorted, p + 1, 100));
    }
}

#[test]
fn equal_keys_keep_their_order() {
    assert_eq!(stable_order(&[3, 1, 3, 2, 1, 3]), vec![1, 4, 3, 0, 2, 5]);
    assert_eq!(stable_order(&[]), Vec::<usize>::new());
}
