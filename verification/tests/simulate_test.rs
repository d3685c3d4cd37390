use fmusim::simulate::{
    require_fmu_file, select_step_sources, split_time_intervals_ranges, DefaultSettings, GivenSettings,
    OutputIntervalSource, StartTimeSource, StopTimeSource, ToleranceSource,
};
use std::ops::Range;

/// One key per time step: equal keys for times that compare equal, and a key
/// of its own for every NaN.
fn time_keys(times: &[f64]) -> Vec<u128> {
    times
        .iter()
        .enumerate()
        .map(|(i, t)| {
            if t.is_nan() {
                (1u128 << 64) + i as u128
            } else if *t == 0.0 {
                0
            } else {
                t.to_bits() as u128
            }
        })
        .collect()
}

fn split(times: &[f64]) -> Vec<Range<usize>> {
    split_time_intervals_ranges(&time_keys(times))
}

#[test]
fn split_time_intervals_ranges_handles_empty_and_single_step_inputs() {
    assert_eq!(split(&[]), Vec::<Range<usize>>::new());
    assert_eq!(split(&[0.0]), vec![0..1]);
}

#[test]
fn split_time_intervals_ranges_returns_one_range_without_events() {
    assert_eq!(split(&[0.0, 1.0, 2.0]), vec![0..3]);
}

#[test]
fn split_time_intervals_ranges_splits_at_duplicate_times() {
    assert_eq!(
        split(&[0., 1., 2., 2., 2., 3., 4., 4., 5.]),
        vec![0..3, 4..7, 7..9]
    );
}

#[test]
fn split_skips_a_leading_duplicate() {
    assert_eq!(split(&[2.0, 2.0, 3.0]), vec![1..3]);
}

#[test]
fn split_at_a_single_event() {
    assert_eq!(split(&[0.0, 1.0, 1.0, 2.0]), vec![0..2, 2..4]);
}

#[test]
fn split_at_an_event_at_the_end() {
    assert_eq!(split(&[0.0, 1.0, 1.0]), vec![0..2, 2..3]);
}

#[test]
fn split_treats_signed_zeros_as_equal() {
    assert_eq!(split(&[-1.0, -0.0, 0.0, 1.0]), vec![0..2, 2..4]);
}

#[test]
fn split_never_sees_an_event_at_nan() {
    assert_eq!(split(&[0.0, f64::NAN, f64::NAN, 1.0]), vec![0..4]);
}

#[test]
fn split_when_a_time_returns_after_a_while() {
    // the event at 2..=3 repeats the first time, which is taken as the time of
    // the previous event
    assert_eq!(split(&[0.0, 1.0, 0.0, 0.0]), vec![3..4]);
}

#[test]
fn split_covers_every_step_but_the_skipped_ones() {
    let times = [0., 0., 0., 1., 2., 2., 3., 3., 3., 3., 4.];
    let ranges = split(&times);
    assert_eq!(ranges, vec![2..5, 5..7, 9..11]);
    let covered: Vec<usize> = ranges.iter().flat_map(|r| r.clone()).collect();
    assert_eq!(covered, vec![2, 3, 4, 5, 6, 9, 10]);
}

#[test]
fn split_ranges_hold_no_event() {
    let times = [0., 1., 1., 2., 3., 3., 3., 4., 5., 5.];
    for r in split(&times) {
        for j in r.start..r.end - 1 {
            assert_ne!(times[j], times[j + 1]);
        }
    }
}

fn nothing_given() -> GivenSettings {
    GivenSettings { start_time: false, stop_time: None, tolerance: false, output_interval: false }
}

fn no_defaults() -> DefaultSettings {
    DefaultSettings { start_time: false, stop_time: false, tolerance: false, output_interval: false }
}

#[test]
fn step_sources_fall_back_without_arguments_and_defaults() {
    let s = select_step_sources(nothing_given(), no_defaults(), false);
    assert_eq!(s.start_time, StartTimeSource::Zero);
    assert_eq!(s.stop_time, StopTimeSource::AfterStartTime);
    assert_eq!(s.tolerance, ToleranceSource::Fallback);
    assert_eq!(s.output_interval, OutputIntervalSource::FractionOfDuration);
}

#[test]
fn step_sources_prefer_arguments() {
    let given = GivenSettings {
        start_time: true,
        stop_time: Some(true),
        tolerance: true,
        output_interval: true,
    };
    let defaults = DefaultSettings {
        start_time: true,
        stop_time: true,
        tolerance: true,
        output_interval: true,
    };
    let s = select_step_sources(given, defaults, true);
    assert_eq!(s.start_time, StartTimeSource::Argument);
    assert_eq!(s.stop_time, StopTimeSource::Argument);
    assert_eq!(s.tolerance, ToleranceSource::Argument);
    assert_eq!(s.output_interval, OutputIntervalSource::Argument);
}

#[test]
fn step_sources_use_the_default_experiment() {
    let defaults = DefaultSettings {
        start_time: true,
        stop_time: true,
        tolerance: true,
        output_interval: true,
    };
    let s = select_step_sources(nothing_given(), defaults, true);
    assert_eq!(s.start_time, StartTimeSource::DefaultExperiment);
    assert_eq!(s.stop_time, StopTimeSource::DefaultExperiment);
    assert_eq!(s.tolerance, ToleranceSource::DefaultExperiment);
    assert_eq!(s.output_interval, OutputIntervalSource::DefaultExperiment);
}

#[test]
fn step_sources_start_before_a_negative_stop_time() {
    let mut given = nothing_given();
    given.stop_time = Some(true);
    let s = select_step_sources(given, no_defaults(), true);
    assert_eq!(s.start_time, StartTimeSource::BeforeStopTime);
    assert_eq!(s.stop_time, StopTimeSource::Argument);
    assert_eq!(s.output_interval, OutputIntervalSource::FixedStepSize);

    given.stop_time = Some(false);
    let s = select_step_sources(given, no_defaults(), false);
    assert_eq!(s.start_time, StartTimeSource::Zero);
}

#[test]
fn split_ranges_start_at_the_last_step_of_each_run() {
    // runs: {0}, {1, 2, 3}, {4}, {5, 6}
    let times = [0., 1., 1., 1., 2., 3., 3.];
    assert_eq!(split(&times), vec![0..2, 3..6, 6..7]);
}

#[test]
fn simulation_needs_an_fmu_file() {
    assert_eq!(require_fmu_file("BouncingBall.fmu"), Ok(()));
    assert_eq!(require_fmu_file(""), Err("No FMU file specified.".to_string()));
}
