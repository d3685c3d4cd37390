//! Decisions of the simulation driver that do not touch floating point.
//!
//! Time steps are handled through keys: a time series is given as one `u128`
//! key per time step, such that two keys are equal exactly when the two time
//! values compare equal.
use core::ops::Range;
use vstd::prelude::*;

verus! {

/// The state of the scan over adjacent pairs of time steps: the ranges emitted
/// so far, the index at which the current range starts, and the key of the
/// time of the most recent event (or of the first step when there was none).
pub type ScanState = (Seq<(int, int)>, int, u128);

/// The scan after it has looked at the first `k` adjacent pairs
/// `(t[0], t[1]), ..., (t[k - 1], t[k])`.
///
/// An event is a pair of equal times at `i`, `i + 1`. At an event the current
/// range is closed after `i` (unless the event repeats the time of the previous
/// one, as the intermediate steps of a run of equal times do), and the next
/// range starts at `i + 1`.
pub open spec fn scan(t: Seq<u128>, k: nat) -> ScanState
    recommends
        0 < t.len(),
        k < t.len(),
    decreases k,
{
    if k == 0 {
        (Seq::empty(), 0, t[0])
    } else {
        let (ranges, start, last) = scan(t, (k - 1) as nat);
        let i = k - 1;
        if t[i] == t[i + 1] {
            if t[i] != last {
                (ranges.push((start, i + 1)), i + 1, t[i])
            } else {
                (ranges, i + 1, t[i])
            }
        } else {
            (ranges, start, last)
        }
    }
}

/// The ranges into which a time series is split at its events.
pub open spec fn split_ranges(t: Seq<u128>) -> Seq<(int, int)> {
    if t.len() == 0 {
        Seq::empty()
    } else {
        let (ranges, start, _) = scan(t, (t.len() - 1) as nat);
        ranges.push((start, t.len() as int))
    }
}

/// `i` and `i + 1` are the indices of two equal times.
pub open spec fn is_event(t: Seq<u128>, i: int) -> bool {
    0 <= i && i + 1 < t.len() && t[i] == t[i + 1]
}

/// A range in the form of a pair of integers.
pub open spec fn range_view(r: Range<usize>) -> (int, int) {
    (r.start as int, r.end as int)
}

/// The ranges of a vector as pairs of integers.
pub open spec fn ranges_view(v: Seq<Range<usize>>) -> Seq<(int, int)> {
    v.map_values(|r: Range<usize>| range_view(r))
}

/// What holds of every state of the scan.
pub open spec fn scan_invariant(t: Seq<u128>, k: nat, s: ScanState) -> bool {
    let (ranges, start, last) = s;
    &&& 0 <= start <= k
    &&& (start == 0 && last == t[0]) || (is_event(t, start - 1) && last == t[start - 1])
    &&& forall|j: int| start <= j < k ==> !is_event(t, j)
    &&& forall|m: int|
        0 <= m < ranges.len() ==> {
            let (a, b) = #[trigger] ranges[m];
            &&& 0 <= a && a + 1 < b <= start
            &&& (a == 0 || is_event(t, a - 1))
            &&& is_event(t, b - 1)
            &&& forall|j: int| a <= j && j + 1 < b ==> !is_event(t, j)
            &&& m + 1 < ranges.len() ==> b <= ranges[m + 1].0
        }
}

proof fn lemma_scan_invariant(t: Seq<u128>, k: nat)
    requires
        0 < t.len(),
        k < t.len(),
    ensures
        scan_invariant(t, k, scan(t, k)),
    decreases k,
{
    if k > 0 {
        lemma_scan_invariant(t, (k - 1) as nat);
        let (ranges, start, last) = scan(t, (k - 1) as nat);
        let i = k - 1;
        if t[i] == t[i + 1] && t[i] != last {
            let ranges2 = ranges.push((start, i + 1));
            // the event at `i` does not repeat the time of the previous event,
            // so the new range holds at least the two steps `start` and `i`
            assert(start < i) by {
                if start == i && start > 0 {
                    assert(t[start - 1] == t[start]);
                }
            }
            assert forall|m: int| 0 <= m < ranges2.len() implies {
                let (a, b) = #[trigger] ranges2[m];
                &&& 0 <= a && a + 1 < b <= i + 1
                &&& (a == 0 || is_event(t, a - 1))
                &&& is_event(t, b - 1)
                &&& forall|j: int| a <= j && j + 1 < b ==> !is_event(t, j)
                &&& m + 1 < ranges2.len() ==> b <= ranges2[m + 1].0
            } by {
                if m < ranges.len() {
                    assert(ranges2[m] == ranges[m]);
                    if m + 1 < ranges.len() {
                        assert(ranges2[m + 1] == ranges[m + 1]);
                    }
                }
            }
        }
    }
}

/// The ranges lie in order within the series, none is empty, the last one ends
/// with the series, and no range holds both steps of an event. Each range
/// starts at the last step of a run of equal times (at the beginning of the
/// series, or right after an event's first step, and not itself at an event),
/// and each range but the last ends with the first step of a run of equal
/// times, an event whose first step is not the second step of another.
pub open spec fn split_is_well_formed(t: Seq<u128>, ranges: Seq<(int, int)>) -> bool {
    &&& ranges.len() > 0 ==> ranges.last().1 == t.len()
    &&& forall|m: int|
        0 <= m < ranges.len() ==> {
            let (a, b) = #[trigger] ranges[m];
            &&& 0 <= a < b <= t.len()
            &&& (a == 0 || is_event(t, a - 1))
            &&& !is_event(t, a)
            &&& (m + 1 < ranges.len() ==> is_event(t, b - 1) && b >= 2 && !is_event(t, b - 2) && b
                <= ranges[m + 1].0)
            &&& forall|j: int| a <= j && j + 1 < b ==> !is_event(t, j)
        }
}

proof fn lemma_split_ranges(t: Seq<u128>)
    ensures
        split_ranges(t).len() == 0 <==> t.len() == 0,
        split_is_well_formed(t, split_ranges(t)),
        (forall|i: int| !is_event(t, i)) && t.len() > 0 ==> split_ranges(t) == seq![(0int, t.len() as int)],
{
    if t.len() > 0 {
        let k = (t.len() - 1) as nat;
        lemma_scan_invariant(t, k);
        let (ranges, start, last) = scan(t, k);
        let r = split_ranges(t);
        assert(r == ranges.push((start, t.len() as int)));
        assert forall|m: int| 0 <= m < r.len() implies {
            let (a, b) = #[trigger] r[m];
            &&& 0 <= a < b <= t.len()
            &&& (a == 0 || is_event(t, a - 1))
            &&& !is_event(t, a)
            &&& (m + 1 < r.len() ==> is_event(t, b - 1) && b >= 2 && !is_event(t, b - 2) && b
                <= r[m + 1].0)
            &&& forall|j: int| a <= j && j + 1 < b ==> !is_event(t, j)
        } by {
            if m < ranges.len() {
                assert(r[m] == ranges[m]);
                if m + 1 < ranges.len() {
                    assert(r[m + 1] == ranges[m + 1]);
                }
            }
        }
        if forall|i: int| !is_event(t, i) {
            if ranges.len() > 0 {
                assert(is_event(t, ranges[0].1 - 1));
            }
            assert(r =~= seq![(0int, t.len() as int)]);
        }
    }
}

/// Splits a time series at its events, returning the ranges of indices to
/// integrate over one after the other.
///
/// The first step of an event (the first of several equal times) is included
/// in the range before it. Intermediate duplicates are skipped, and the next
/// range starts at the last duplicate.
pub fn split_time_intervals_ranges(time_steps: &[u128]) -> (intervals: Vec<Range<usize>>)
    ensures
        ranges_view(intervals@) == split_ranges(time_steps@),
        intervals@.len() == 0 <==> time_steps@.len() == 0,
        split_is_well_formed(time_steps@, ranges_view(intervals@)),
        (forall|i: int| !is_event(time_steps@, i)) && time_steps@.len() > 0 ==> ranges_view(
            intervals@,
        ) == seq![(0int, time_steps@.len() as int)],
{
    proof {
        lemma_split_ranges(time_steps@);
    }
    let mut intervals: Vec<Range<usize>> = Vec::new();
    let n = time_steps.len();
    if n == 0 {
        assert(ranges_view(intervals@) =~= split_ranges(time_steps@));
        return intervals;
    }
    let mut last_idx: usize = 0;
    let mut last_time: u128 = time_steps[0];
    let mut idx: usize = 0;
    while idx + 1 < n
        invariant
            n == time_steps@.len(),
            0 < n,
            idx < n,
            (ranges_view(intervals@), last_idx as int, last_time) == scan(time_steps@, idx as nat),
        decreases n - idx,
    {
        let t0 = time_steps[idx];
        let t1 = time_steps[idx + 1];
        proof {
            lemma_scan_invariant(time_steps@, idx as nat);
        }
        if t0 == t1 {
            if t0 != last_time {
                let ghost before = intervals@;
                intervals.push(Range { start: last_idx, end: idx + 1 });
                assert(ranges_view(intervals@) =~= ranges_view(before).push((last_idx as int, idx + 1)));
            }
            last_idx = idx + 1;
            last_time = t0;
        }
        idx = idx + 1;
    }
    let ghost before = intervals@;
    intervals.push(Range { start: last_idx, end: n });
    assert(ranges_view(intervals@) =~= ranges_view(before).push((last_idx as int, n as int)));
    intervals
}


/// Some range of `ranges` holds the index `j`.
pub open spec fn covers(ranges: Seq<(int, int)>, j: int) -> bool {
    exists|m: int| 0 <= m < ranges.len() && #[trigger] ranges[m].0 <= j < ranges[m].1
}

/// The step at `j` belongs to no range: it is the first of a run of equal
/// times at the very start, or a step inside a run, after its first step and
/// before its last.
pub open spec fn is_skipped_step(t: Seq<u128>, j: int) -> bool {
    is_event(t, j) && (j == 0 || is_event(t, j - 1))
}

/// Every time occurs in one run of adjacent steps, as in a series that never
/// goes back in time.
pub open spec fn times_in_runs(t: Seq<u128>) -> bool {
    forall|i: int, j: int, l: int|
        0 <= i < j < l < t.len() && #[trigger] t[i] == #[trigger] t[l] ==> t[i] == #[trigger] t[j]
}

proof fn lemma_scan_coverage(t: Seq<u128>, k: nat)
    requires
        0 < t.len(),
        k < t.len(),
        times_in_runs(t),
    ensures
        forall|j: int|
            0 <= j < scan(t, k).1 ==> (covers(scan(t, k).0, j) <==> !is_skipped_step(t, j)),
        forall|m: int| 0 <= m < scan(t, k).0.len() ==> #[trigger] scan(t, k).0[m].1 <= scan(t, k).1,
    decreases k,
{
    lemma_scan_invariant(t, k);
    if k > 0 {
        lemma_scan_coverage(t, (k - 1) as nat);
        lemma_scan_invariant(t, (k - 1) as nat);
        let (ranges, start, last) = scan(t, (k - 1) as nat);
        let i = k - 1;
        if t[i] == t[i + 1] {
            if t[i] != last {
                let ranges2 = ranges.push((start, i + 1));
                assert(ranges2[ranges.len() as int] == (start, i + 1));
                assert forall|j: int| 0 <= j < i + 1 implies (covers(ranges2, j)
                    <==> !is_skipped_step(t, j)) by {
                    if j < start {
                        if covers(ranges2, j) {
                            let m = choose|m: int|
                                0 <= m < ranges2.len() && #[trigger] ranges2[m].0 <= j
                                    < ranges2[m].1;
                            if m < ranges.len() {
                                assert(ranges2[m] == ranges[m]);
                            }
                        }
                        if covers(ranges, j) {
                            let m = choose|m: int|
                                0 <= m < ranges.len() && #[trigger] ranges[m].0 <= j < ranges[m].1;
                            assert(ranges2[m] == ranges[m]);
                        }
                    } else {
                        assert(ranges2[ranges.len() as int].0 <= j < ranges2[ranges.len() as int].1);
                        if j == i {
                            if i == 0 {
                                assert(start == 0);
                            } else if start == i {
                            } else {
                                assert(!is_event(t, i - 1));
                            }
                        }
                    }
                }
                assert forall|m: int| 0 <= m < ranges2.len() implies #[trigger] ranges2[m].1 <= i
                    + 1 by {
                    if m < ranges.len() {
                        assert(ranges2[m] == ranges[m]);
                    }
                }
            } else {
                // the event repeats the previous time: it is the step right
                // after the previous event, or the very first step
                assert(i == start) by {
                    if i > start {
                        if start == 0 {
                            assert(t[0] == t[i]);
                            assert(t[0] == t[1]);
                            assert(is_event(t, 0));
                        } else {
                            assert(t[start - 1] == t[i]);
                            assert(t[start - 1] == t[start + 1]);
                            assert(t[start] == t[start + 1]);
                            assert(is_event(t, start));
                        }
                    }
                }
                assert forall|j: int| 0 <= j < i + 1 implies (covers(ranges, j)
                    <==> !is_skipped_step(t, j)) by {
                    if j == i {
                        if covers(ranges, j) {
                            let m = choose|m: int|
                                0 <= m < ranges.len() && #[trigger] ranges[m].0 <= j < ranges[m].1;
                        }
                    }
                }
            }
        }
    }
}

/// When every time occurs in a single run of adjacent steps (as in a series
/// that never goes back in time), the ranges hold every step but the skipped
/// ones: the steps strictly inside a run of equal times, and the first step of
/// a run with which the series starts.
pub proof fn lemma_split_covers_all_but_skipped_steps(t: Seq<u128>)
    requires
        times_in_runs(t),
    ensures
        forall|j: int|
            0 <= j < t.len() ==> (covers(split_ranges(t), j) <==> !is_skipped_step(t, j)),
{
    if t.len() > 0 {
        let k = (t.len() - 1) as nat;
        lemma_scan_coverage(t, k);
        lemma_scan_invariant(t, k);
        let (ranges, start, last) = scan(t, k);
        let r = split_ranges(t);
        assert(r[ranges.len() as int] == (start, t.len() as int));
        assert forall|j: int| 0 <= j < t.len() implies (covers(r, j) <==> !is_skipped_step(
            t,
            j,
        )) by {
            if j < start {
                if covers(r, j) {
                    let m = choose|m: int| 0 <= m < r.len() && #[trigger] r[m].0 <= j < r[m].1;
                    if m < ranges.len() {
                        assert(r[m] == ranges[m]);
                    }
                }
                if covers(ranges, j) {
                    let m = choose|m: int|
                        0 <= m < ranges.len() && #[trigger] ranges[m].0 <= j < ranges[m].1;
                    assert(r[m] == ranges[m]);
                }
            } else {
                assert(r[ranges.len() as int].0 <= j < r[ranges.len() as int].1);
            }
        }
    }
}

/// Where the start time of a simulation comes from.
#[derive(Clone, Copy, Debug, PartialEq, Eq)]
pub enum StartTimeSource {
    /// The `--start-time` argument.
    Argument,
    /// The start time of the model's default experiment.
    DefaultExperiment,
    /// One second before a negative `--stop-time`.
    BeforeStopTime,
    /// Zero.
    Zero,
}

/// Where the stop time of a simulation comes from.
#[derive(Clone, Copy, Debug, PartialEq, Eq)]
pub enum StopTimeSource {
    /// The `--stop-time` argument.
    Argument,
    /// The stop time of the model's default experiment.
    DefaultExperiment,
    /// One second after the start time.
    AfterStartTime,
}

/// Where the relative tolerance of a simulation comes from.
#[derive(Clone, Copy, Debug, PartialEq, Eq)]
pub enum ToleranceSource {
    /// The `--tolerance` argument.
    Argument,
    /// The tolerance of the model's default experiment.
    DefaultExperiment,
    /// The fallback tolerance `1e-4`.
    Fallback,
}

/// Where the output interval of a simulation comes from.
#[derive(Clone, Copy, Debug, PartialEq, Eq)]
pub enum OutputIntervalSource {
    /// The `--output-interval` argument.
    Argument,
    /// The step size of the model's default experiment.
    DefaultExperiment,
    /// The fixed step size of the solver.
    FixedStepSize,
    /// A five-hundredth of the time between start and stop.
    FractionOfDuration,
}

/// Which of the settings were given on the command line.
#[derive(Clone, Copy, Debug, PartialEq, Eq)]
pub struct GivenSettings {
    pub start_time: bool,
    /// `Some(negative)` when a stop time was given, `negative` telling whether it lies below zero.
    pub stop_time: Option<bool>,
    pub tolerance: bool,
    pub output_interval: bool,
}

/// Which of the settings the model's default experiment holds (in a form that parses as a number).
#[derive(Clone, Copy, Debug, PartialEq, Eq)]
pub struct DefaultSettings {
    pub start_time: bool,
    pub stop_time: bool,
    pub tolerance: bool,
    pub output_interval: bool,
}

/// The source of each of the four settings of a simulation.
#[derive(Clone, Copy, Debug, PartialEq, Eq)]
pub struct StepSources {
    pub start_time: StartTimeSource,
    pub stop_time: StopTimeSource,
    pub tolerance: ToleranceSource,
    pub output_interval: OutputIntervalSource,
}

/// Chooses where each setting of a simulation comes from: an argument given on
/// the command line wins over the model's default experiment, which wins over
/// the fallbacks. Without either, the start time is zero (or one second before a
/// negative stop time), the stop time one second after the start time, the
/// tolerance `1e-4`, and the output interval the fixed step size if there is one,
/// else a five-hundredth of the simulated time.
pub fn select_step_sources(
    given: GivenSettings,
    defaults: DefaultSettings,
    has_fixed_step_size: bool,
) -> (sources: StepSources)
    ensures
        sources.start_time == (if given.start_time {
            StartTimeSource::Argument
        } else if defaults.start_time {
            StartTimeSource::DefaultExperiment
        } else if given.stop_time == Some(true) {
            StartTimeSource::BeforeStopTime
        } else {
            StartTimeSource::Zero
        }),
        sources.stop_time == (if given.stop_time is Some {
            StopTimeSource::Argument
        } else if defaults.stop_time {
            StopTimeSource::DefaultExperiment
        } else {
            StopTimeSource::AfterStartTime
        }),
        sources.tolerance == (if given.tolerance {
            ToleranceSource::Argument
        } else if defaults.tolerance {
            ToleranceSource::DefaultExperiment
        } else {
            ToleranceSource::Fallback
        }),
        sources.output_interval == (if given.output_interval {
            OutputIntervalSource::Argument
        } else if defaults.output_interval {
            OutputIntervalSource::DefaultExperiment
        } else if has_fixed_step_size {
            OutputIntervalSource::FixedStepSize
        } else {
            OutputIntervalSource::FractionOfDuration
        }),
{
    let start_time = if given.start_time {
        StartTimeSource::Argument
    } else if defaults.start_time {
        StartTimeSource::DefaultExperiment
    } else if let Some(true) = given.stop_time {
        StartTimeSource::BeforeStopTime
    } else {
        StartTimeSource::Zero
    };
    let stop_time = if given.stop_time.is_some() {
        StopTimeSource::Argument
    } else if defaults.stop_time {
        StopTimeSource::DefaultExperiment
    } else {
        StopTimeSource::AfterStartTime
    };
    let tolerance = if given.tolerance {
        ToleranceSource::Argument
    } else if defaults.tolerance {
        ToleranceSource::DefaultExperiment
    } else {
        ToleranceSource::Fallback
    };
    let output_interval = if given.output_interval {
        OutputIntervalSource::Argument
    } else if defaults.output_interval {
        OutputIntervalSource::DefaultExperiment
    } else if has_fixed_step_size {
        OutputIntervalSource::FixedStepSize
    } else {
        OutputIntervalSource::FractionOfDuration
    };
    StepSources { start_time, stop_time, tolerance, output_interval }
}

/// A range of `ranges` starts at `j`.
pub open spec fn starts_range(ranges: Seq<(int, int)>, j: int) -> bool {
    exists|m: int| 0 <= m < ranges.len() && #[trigger] ranges[m].0 == j
}

/// A range of `ranges` other than the last ends right after `j`.
pub open spec fn cut_after(ranges: Seq<(int, int)>, j: int) -> bool {
    exists|m: int| 0 <= m < ranges.len() - 1 && #[trigger] ranges[m].1 == j + 1
}

/// The ranges in closed form, when every time occurs in a single run of
/// adjacent steps (as in a series that never goes back in time): a range
/// starts at each step that is the last of its run (a step alone being a run
/// of its own), and a range ends after each step that is the first of a run of
/// equal times, but for a run with which the series starts.
pub proof fn lemma_split_ranges_closed_form(t: Seq<u128>)
    requires
        times_in_runs(t),
    ensures
        forall|j: int|
            0 <= j < t.len() ==> (starts_range(split_ranges(t), j) <==> (!is_event(t, j) && (j == 0
                || is_event(t, j - 1)))),
        forall|j: int|
            0 <= j < t.len() ==> (cut_after(split_ranges(t), j) <==> (j > 0 && is_event(t, j)
                && !is_event(t, j - 1))),
{
    lemma_split_ranges(t);
    lemma_split_covers_all_but_skipped_steps(t);
    lemma_closed_form_of_covering_ranges(t, split_ranges(t));
}

proof fn lemma_closed_form_of_covering_ranges(t: Seq<u128>, r: Seq<(int, int)>)
    requires
        split_is_well_formed(t, r),
        r.len() > 0 ==> r.last().1 == t.len(),
        forall|j: int| 0 <= j < t.len() ==> (covers(r, j) <==> !is_skipped_step(t, j)),
    ensures
        forall|j: int|
            0 <= j < t.len() ==> (starts_range(r, j) <==> (!is_event(t, j) && (j == 0
                || is_event(t, j - 1)))),
        forall|j: int|
            0 <= j < t.len() ==> (cut_after(r, j) <==> (j > 0 && is_event(t, j)
                && !is_event(t, j - 1))),
{
    assert forall|j: int| 0 <= j < t.len() implies (starts_range(r, j) <==> (!is_event(t, j) && (j
        == 0 || is_event(t, j - 1)))) by {
        if starts_range(r, j) {
            let m = choose|m: int| 0 <= m < r.len() && #[trigger] r[m].0 == j;
            assert(r[m].0 == j);
        }
        if !is_event(t, j) && (j == 0 || is_event(t, j - 1)) {
            assert(!is_skipped_step(t, j));
            assert(covers(r, j));
            let m = choose|m: int| 0 <= m < r.len() && #[trigger] r[m].0 <= j < r[m].1;
            let (a, b) = r[m];
            if a < j {
                assert(!is_event(t, j - 1));
            }
            assert(r[m].0 == j);
        }
    }
    assert forall|j: int| 0 <= j < t.len() implies (cut_after(r, j) <==> (j > 0 && is_event(t, j)
        && !is_event(t, j - 1))) by {
        if cut_after(r, j) {
            let m = choose|m: int| 0 <= m < r.len() - 1 && #[trigger] r[m].1 == j + 1;
            assert(r[m].1 == j + 1);
        }
        if j > 0 && is_event(t, j) && !is_event(t, j - 1) {
            assert(!is_skipped_step(t, j));
            assert(covers(r, j));
            let m = choose|m: int| 0 <= m < r.len() && #[trigger] r[m].0 <= j < r[m].1;
            let (a, b) = r[m];
            assert(b == j + 1);
            if m == r.len() - 1 {
                assert(r.last() == r[m]);
            }
            assert(r[m].1 == j + 1);
        }
    }
}

/// Refuses a simulation without an FMU file.
pub fn require_fmu_file(fmu_file: &str) -> (r: Result<(), String>)
    ensures
        r is Ok <==> fmu_file@.len() > 0,
        r matches Err(msg) ==> msg@ == "No FMU file specified."@,
{
    if fmu_file.is_empty() {
        Err("No FMU file specified.".to_owned())
    } else {
        Ok(())
    }
}

} // verus!
