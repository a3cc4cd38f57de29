//! The schedule analyzer: from the cleaning events of an address to the
//! rhythm of its cleanings.
//!
//! Times are whole seconds, the inferred interval is in milliseconds (the
//! centre of a histogram bin is a whole number of them), and the confidence
//! is in millionths.

use crate::calendar::{
    hour_number, hour_of_day, is_timestamp_in_range, timestamp_in_range, utc_weekday,
    weekday_number,
};
use crate::decimal::pow10;
use crate::error::AMPError;
use crate::grouping::{
    arranged, belongs, is_time_order, lemma_time_order_unique, occurs_before, positions_of,
    seen_before, time_ordered_group,
};
use crate::models::{CleaningEvent, CleaningSchedule};
use crate::text::{push_two_digits, two_digits};
use crate::geometry::{ceil_sqrt, lemma_rounds_up_root_bound, lemma_square_monotonic};
use vstd::arithmetic::div_mod::{lemma_fundamental_div_mod, lemma_mod_bound};
use vstd::prelude::*;
use vstd::string::StringExecFns;

verus! {

/// Number of bins of the histogram of intervals.
pub const BIN_COUNT: usize = 20;

/// Largest magnitude of an interval between two timestamps in range: twice
/// the largest magnitude of a timestamp.
pub const INTERVAL_LIMIT: i64 = 17_179_869_184;

/// Largest number of events that one analysis takes.
pub const MAX_EVENTS: usize = 262_144;

/// A confidence of one, in millionths.
pub const FULL_CONFIDENCE: u32 = 1_000_000;

/// How often `target` occurs among `marks`.
pub open spec fn tally(marks: Seq<i64>, target: int) -> nat
    decreases marks.len(),
{
    if marks.len() == 0 {
        0
    } else {
        tally(marks.drop_last(), target) + if marks.last() == target {
            1nat
        } else {
            0nat
        }
    }
}

/// `peak` is the last of the numbers from 0 up to `size` that occur most
/// often among `marks`.
pub open spec fn is_last_peak(marks: Seq<i64>, size: int, peak: int) -> bool {
    &&& 0 <= peak < size
    &&& forall|k: int| 0 <= k < size ==> tally(marks, k) <= #[trigger] tally(marks, peak)
    &&& forall|k: int| peak < k < size ==> #[trigger] tally(marks, k) < tally(marks, peak)
}

/// Only one number is the last peak.
pub proof fn lemma_last_peak_unique(marks: Seq<i64>, size: int, first: int, second: int)
    requires
        is_last_peak(marks, size, first),
        is_last_peak(marks, size, second),
    ensures
        first == second,
{
    if first < second {
        assert(tally(marks, second) < tally(marks, first));
        assert(tally(marks, first) <= tally(marks, second));
    } else if second < first {
        assert(tally(marks, first) < tally(marks, second));
        assert(tally(marks, second) <= tally(marks, first));
    }
}

/// No number occurs more often among the marks than there are marks.
pub proof fn lemma_tally_bound(marks: Seq<i64>, target: int)
    ensures
        tally(marks, target) <= marks.len(),
    decreases marks.len(),
{
    if marks.len() > 0 {
        lemma_tally_bound(marks.drop_last(), target);
    }
}

/// The last of the numbers below `size` that occur most often among `marks`.
pub fn last_peak(marks: &Vec<i64>, size: usize) -> (peak: usize)
    requires
        0 < size <= 64,
    ensures
        is_last_peak(marks@, size as int, peak as int),
{
    let mut counts: Vec<usize> = Vec::new();
    let mut k: usize = 0;
    while k < size
        invariant
            k <= size,
            counts@.len() == k,
            forall|j: int| 0 <= j < k ==> counts@[j] == 0,
        decreases size - k,
    {
        counts.push(0);
        k = k + 1;
    }
    let mut i: usize = 0;
    while i < marks.len()
        invariant
            i <= marks.len(),
            0 < size <= 64,
            counts@.len() == size,
            forall|j: int| 0 <= j < size ==> counts@[j] == tally(marks@.take(i as int), j),
        decreases marks.len() - i,
    {
        let mark: i64 = marks[i];
        let ghost before = counts@;
        let ghost longer = marks@.take(i + 1);
        proof {
            assert(longer.drop_last() =~= marks@.take(i as int));
            assert(longer.last() == mark);
            if 0 <= mark < size {
                lemma_tally_bound(longer, mark as int);
            }
        }
        if 0 <= mark && mark < size as i64 {
            let at: usize = mark as usize;
            let held: usize = counts[at];
            counts.set(at, held + 1);
        }
        proof {
            assert forall|j: int| 0 <= j < size implies counts@[j] == tally(longer, j) by {
                assert(before[j] == tally(marks@.take(i as int), j));
            }
        }
        i = i + 1;
    }
    assert(marks@.take(marks@.len() as int) =~= marks@);
    let mut peak: usize = 0;
    let mut b: usize = 1;
    while b < size
        invariant
            1 <= b <= size,
            peak < b,
            counts@.len() == size,
            forall|j: int| 0 <= j < size ==> counts@[j] == tally(marks@, j),
            forall|j: int| 0 <= j < b ==> counts@[j] <= counts@[peak as int],
            forall|j: int| peak < j < b ==> counts@[j] < counts@[peak as int],
        decreases size - b,
    {
        if counts[b] >= counts[peak] {
            peak = b;
        }
        b = b + 1;
    }
    peak
}

/// The least of a sequence of numbers.
pub open spec fn lowest(values: Seq<i64>) -> int
    recommends
        values.len() > 0,
    decreases values.len(),
{
    if values.len() <= 1 {
        values[0] as int
    } else {
        let rest = lowest(values.drop_last());
        if values.last() < rest {
            values.last() as int
        } else {
            rest
        }
    }
}

/// The greatest of a sequence of numbers.
pub open spec fn highest(values: Seq<i64>) -> int
    recommends
        values.len() > 0,
    decreases values.len(),
{
    if values.len() <= 1 {
        values[0] as int
    } else {
        let rest = highest(values.drop_last());
        if values.last() > rest {
            values.last() as int
        } else {
            rest
        }
    }
}

/// Every interval is within [`INTERVAL_LIMIT`].
pub open spec fn intervals_in_range(intervals: Seq<i64>) -> bool {
    forall|i: int|
        0 <= i < intervals.len() ==> -INTERVAL_LIMIT <= #[trigger] intervals[i] <= INTERVAL_LIMIT
}

/// The histogram bin of `value` when the range from `low` to `high` is cut
/// into [`BIN_COUNT`] bins of equal width: the number of whole bin widths
/// that fit between `low` and `value`, and the last bin for `high` itself.
pub open spec fn bin_of(value: int, low: int, high: int) -> int
    recommends
        low <= value <= high,
        low < high,
{
    let bin = ((value - low) * BIN_COUNT as int) / (high - low);
    if bin < 0 {
        0
    } else if bin >= BIN_COUNT {
        BIN_COUNT as int - 1
    } else {
        bin
    }
}

/// The bin of every interval, in the order of the intervals.
pub open spec fn bin_marks(intervals: Seq<i64>) -> Seq<i64> {
    Seq::new(
        intervals.len(),
        |i: int| bin_of(intervals[i] as int, lowest(intervals), highest(intervals)) as i64,
    )
}

/// The centre of bin number `bin` of the histogram of the intervals, in
/// milliseconds, for intervals in seconds.
pub open spec fn bin_centre_ms(intervals: Seq<i64>, bin: int) -> int {
    let low = lowest(intervals);
    let high = highest(intervals);
    low * 1000 + (2 * bin + 1) * (high - low) * 25
}

/// `found` is the dominant interval of the intervals, in milliseconds: the
/// one value, if all intervals are the same; else the centre of the fullest
/// bin of their histogram, the last one of several equally full bins.
pub open spec fn is_dominant_interval(intervals: Seq<i64>, found: int) -> bool {
    if lowest(intervals) == highest(intervals) {
        found == lowest(intervals) * 1000
    } else {
        exists|bin: int| #[trigger]
            is_last_peak(bin_marks(intervals), BIN_COUNT as int, bin) && found == bin_centre_ms(
                intervals,
                bin,
            )
    }
}

/// A sequence of intervals has one dominant interval only.
pub proof fn lemma_dominant_interval_unique(intervals: Seq<i64>, first: int, second: int)
    requires
        is_dominant_interval(intervals, first),
        is_dominant_interval(intervals, second),
    ensures
        first == second,
{
    if lowest(intervals) != highest(intervals) {
        let a = choose|bin: int| #[trigger]
            is_last_peak(bin_marks(intervals), BIN_COUNT as int, bin) && first == bin_centre_ms(
                intervals,
                bin,
            );
        let b = choose|bin: int| #[trigger]
            is_last_peak(bin_marks(intervals), BIN_COUNT as int, bin) && second == bin_centre_ms(
                intervals,
                bin,
            );
        lemma_last_peak_unique(bin_marks(intervals), BIN_COUNT as int, a, b);
    }
}

/// The least and the greatest of the values.
fn extremes(values: &[i64]) -> (ends: (i64, i64))
    requires
        values@.len() > 0,
    ensures
        ends.0 == lowest(values@),
        ends.1 == highest(values@),
        ends.0 <= ends.1,
        forall|i: int| 0 <= i < values@.len() ==> ends.0 <= #[trigger] values@[i] <= ends.1,
        exists|i: int| 0 <= i < values@.len() && values@[i] == ends.0,
        exists|i: int| 0 <= i < values@.len() && values@[i] == ends.1,
{
    let mut low: i64 = values[0];
    let mut high: i64 = values[0];
    let mut i: usize = 1;
    assert(values@.take(1).len() == 1);
    assert(values@.take(1)[0] == values@[0]);
    while i < values.len()
        invariant
            1 <= i <= values.len(),
            low == lowest(values@.take(i as int)),
            high == highest(values@.take(i as int)),
            low <= high,
            forall|j: int| 0 <= j < i ==> low <= #[trigger] values@[j] <= high,
            exists|j: int| 0 <= j < i && values@[j] == low,
            exists|j: int| 0 <= j < i && values@[j] == high,
        decreases values.len() - i,
    {
        let value: i64 = values[i];
        proof {
            let longer = values@.take(i + 1);
            assert(longer.drop_last() =~= values@.take(i as int));
            assert(longer.last() == value);
        }
        if value < low {
            low = value;
        }
        if value > high {
            high = value;
        }
        i = i + 1;
    }
    assert(values@.take(values@.len() as int) =~= values@);
    (low, high)
}

/// The sum of the values.
pub open spec fn total(values: Seq<i64>) -> int
    decreases values.len(),
{
    if values.len() == 0 {
        0
    } else {
        total(values.drop_last()) + values.last()
    }
}

/// The sum of the squares of the values.
pub open spec fn total_squares(values: Seq<i64>) -> int
    decreases values.len(),
{
    if values.len() == 0 {
        0
    } else {
        total_squares(values.drop_last()) + values.last() * values.last()
    }
}

/// The variance of the values times the square of their number: the number
/// of values times the sum of their squares, less the square of their sum.
pub open spec fn spread(values: Seq<i64>) -> int {
    values.len() * total_squares(values) - total(values) * total(values)
}

/// One less the ratio of the standard deviation of the intervals (in
/// seconds) to the expected interval (in milliseconds) is at least
/// `millionths` millionths, for a positive expected interval.
///
/// With `n` intervals of standard deviation `s` this says that
/// `(1 000 000 - millionths) * expected >= 1 000 000 000 * s`; both sides
/// are squared and multiplied by `n * n` to stay within whole numbers.
pub open spec fn confidence_reaches(intervals: Seq<i64>, expected_ms: int, millionths: int) -> bool {
    let slack = (FULL_CONFIDENCE - millionths) * intervals.len() * expected_ms;
    slack * slack >= 1_000_000_000_000_000_000 * spread(intervals)
}

/// `found` is the confidence, in millionths, that the intervals recur every
/// `expected_ms` milliseconds: one less the ratio of their standard deviation
/// to the expected interval, kept between zero and one and rounded down to a
/// whole millionth.
///
/// Fewer than two intervals give no confidence, nor does an expected interval
/// of zero; a negative expected interval gives full confidence.
pub open spec fn is_confidence(intervals: Seq<i64>, expected_ms: int, found: int) -> bool {
    if intervals.len() < 2 || expected_ms == 0 {
        found == 0
    } else if expected_ms < 0 {
        found == FULL_CONFIDENCE
    } else {
        &&& 0 <= found <= FULL_CONFIDENCE
        &&& found > 0 ==> confidence_reaches(intervals, expected_ms, found)
        &&& found < FULL_CONFIDENCE ==> !confidence_reaches(intervals, expected_ms, found + 1)
    }
}

/// A lower confidence is reached whenever a higher one is.
pub proof fn lemma_confidence_reaches_lower(
    intervals: Seq<i64>,
    expected_ms: int,
    lower: int,
    higher: int,
)
    requires
        expected_ms > 0,
        lower <= higher <= FULL_CONFIDENCE,
        confidence_reaches(intervals, expected_ms, higher),
    ensures
        confidence_reaches(intervals, expected_ms, lower),
{
    let n = intervals.len() as int;
    let small = (FULL_CONFIDENCE - higher) * n * expected_ms;
    let large = (FULL_CONFIDENCE - lower) * n * expected_ms;
    assert(0 <= small <= large) by (nonlinear_arith)
        requires
            0 <= FULL_CONFIDENCE - higher <= FULL_CONFIDENCE - lower,
            n >= 0,
            expected_ms > 0,
            small == (FULL_CONFIDENCE - higher) * n * expected_ms,
            large == (FULL_CONFIDENCE - lower) * n * expected_ms,
    ;
    lemma_square_monotonic(small, large);
}

/// Intervals and an expected interval have one confidence only.
pub proof fn lemma_confidence_unique(intervals: Seq<i64>, expected_ms: int, first: int, second: int)
    requires
        is_confidence(intervals, expected_ms, first),
        is_confidence(intervals, expected_ms, second),
    ensures
        first == second,
{
    if intervals.len() >= 2 && expected_ms > 0 {
        if first < second {
            lemma_confidence_reaches_lower(intervals, expected_ms, first + 1, second);
        } else if second < first {
            lemma_confidence_reaches_lower(intervals, expected_ms, second + 1, first);
        }
    }
}

/// Every value is `value`.
pub open spec fn all_equal(values: Seq<i64>, value: i64) -> bool {
    forall|i: int| 0 <= i < values.len() ==> #[trigger] values[i] == value
}

/// Of values that are all the same, the least, the greatest, the sum and the
/// sum of squares.
pub proof fn lemma_sums_of_equal_values(values: Seq<i64>, value: i64)
    requires
        all_equal(values, value),
    ensures
        values.len() > 0 ==> lowest(values) == value && highest(values) == value,
        total(values) == values.len() * value,
        total_squares(values) == values.len() * (value * value),
    decreases values.len(),
{
    if values.len() > 0 {
        let shorter = values.drop_last();
        assert(all_equal(shorter, value)) by {
            assert forall|i: int| 0 <= i < shorter.len() implies #[trigger] shorter[i] == value by {
                assert(shorter[i] == values[i]);
            }
        }
        lemma_sums_of_equal_values(shorter, value);
        assert(values.last() == values[values.len() - 1]);
        assert(values[0] == value);
        assert(values.len() * value == shorter.len() * value + value) by (nonlinear_arith)
            requires
                values.len() == shorter.len() + 1,
        ;
        assert(values.len() * (value * value) == shorter.len() * (value * value) + value * value)
            by (nonlinear_arith)
            requires
                values.len() == shorter.len() + 1,
        ;
    }
}

/// Intervals that are all the same are their own dominant interval.
pub proof fn lemma_equal_intervals_are_dominant(intervals: Seq<i64>, value: i64)
    requires
        intervals.len() > 0,
        all_equal(intervals, value),
    ensures
        is_dominant_interval(intervals, value * 1000),
{
    lemma_sums_of_equal_values(intervals, value);
}

/// Two or more intervals that are all the same recur with full confidence
/// at every positive expected interval.
pub proof fn lemma_equal_intervals_have_full_confidence(
    intervals: Seq<i64>,
    value: i64,
    expected_ms: int,
)
    requires
        intervals.len() >= 2,
        all_equal(intervals, value),
        expected_ms > 0,
    ensures
        is_confidence(intervals, expected_ms, FULL_CONFIDENCE as int),
{
    lemma_sums_of_equal_values(intervals, value);
    let n = intervals.len() as int;
    assert(spread(intervals) == 0) by (nonlinear_arith)
        requires
            spread(intervals) == n * total_squares(intervals) - total(intervals) * total(
                intervals,
            ),
            total(intervals) == n * value,
            total_squares(intervals) == n * (value * value),
    ;
    let slack = (FULL_CONFIDENCE - FULL_CONFIDENCE) * intervals.len() * expected_ms;
    assert(slack * slack >= 0) by (nonlinear_arith);
}

/// Intervals that vary recur with less than full confidence.
pub proof fn lemma_varied_intervals_lack_confidence(
    intervals: Seq<i64>,
    expected_ms: int,
    confidence: int,
)
    requires
        intervals.len() >= 2,
        expected_ms > 0,
        spread(intervals) > 0,
        is_confidence(intervals, expected_ms, confidence),
    ensures
        confidence < FULL_CONFIDENCE,
{
    if confidence == FULL_CONFIDENCE {
        let slack = (FULL_CONFIDENCE - confidence) * intervals.len() * expected_ms;
        assert(slack == 0) by (nonlinear_arith)
            requires
                slack == (FULL_CONFIDENCE - confidence) * intervals.len() * expected_ms,
                confidence == FULL_CONFIDENCE,
        ;
        assert(1_000_000_000_000_000_000 * spread(intervals) > 0) by (nonlinear_arith)
            requires
                spread(intervals) > 0,
        ;
    }
}

/// The sum of the values and the sum of their squares.
fn sums(values: &[i64]) -> (both: (i128, i128))
    requires
        intervals_in_range(values@),
        values@.len() <= MAX_EVENTS,
    ensures
        both.0 == total(values@),
        both.1 == total_squares(values@),
        -(values@.len() * INTERVAL_LIMIT) <= both.0 <= values@.len() * INTERVAL_LIMIT,
        0 <= both.1 <= values@.len() * 295_147_905_179_352_825_856,
{
    let mut sum: i128 = 0;
    let mut squares: i128 = 0;
    let mut i: usize = 0;
    while i < values.len()
        invariant
            i <= values.len(),
            values@.len() <= MAX_EVENTS,
            intervals_in_range(values@),
            sum == total(values@.take(i as int)),
            squares == total_squares(values@.take(i as int)),
            -(i * INTERVAL_LIMIT) <= sum <= i * INTERVAL_LIMIT,
            0 <= squares <= i * 295_147_905_179_352_825_856,
        decreases values.len() - i,
    {
        let value: i64 = values[i];
        proof {
            let longer = values@.take(i + 1);
            assert(longer.drop_last() =~= values@.take(i as int));
            assert(longer.last() == value);
            assert(0 <= value * value <= 295_147_905_179_352_825_856) by (nonlinear_arith)
                requires
                    -17_179_869_184 <= value <= 17_179_869_184,
            ;
        }
        sum = sum + value as i128;
        squares = squares + (value as i128) * (value as i128);
        i = i + 1;
    }
    assert(values@.take(values@.len() as int) =~= values@);
    (sum, squares)
}

/// `1 000 000 000 000 * a / b` rounded up, for `a` below `b`.
fn scaled_quotient(a: u128, b: u128) -> (q: u128)
    requires
        a < b <= 0x1000_0000_0000_0000_0000_0000_0000_0000,
    ensures
        q <= 1_000_000_000_000,
        q * b >= 1_000_000_000_000 * a,
        q > 0 ==> (q - 1) * b < 1_000_000_000_000 * a,
{
    let mut q: u128 = 0;
    let mut r: u128 = a;
    let mut i: u32 = 0;
    proof {
        reveal_with_fuel(pow10, 14);
    }
    while i < 12
        invariant
            i <= 12,
            a < b <= 0x1000_0000_0000_0000_0000_0000_0000_0000,
            0 <= r < b,
            pow10(i as nat) * a == q * b + r,
            q < pow10(i as nat),
            pow10(i as nat) <= pow10(12),
        decreases 12 - i,
    {
        let shifted: u128 = r * 10;
        let digit: u128 = shifted / b;
        let rest: u128 = shifted % b;
        proof {
            lemma_fundamental_div_mod(shifted as int, b as int);
            lemma_mod_bound(shifted as int, b as int);
            assert(digit <= 9) by (nonlinear_arith)
                requires
                    shifted == b * digit + rest,
                    shifted < 10 * b,
                    rest >= 0,
                    b > 0,
            ;
            assert(pow10((i + 1) as nat) == 10 * pow10(i as nat));
            assert(pow10((i + 1) as nat) * a == (q * 10 + digit) * b + rest) by (nonlinear_arith)
                requires
                    pow10((i + 1) as nat) == 10 * pow10(i as nat),
                    pow10(i as nat) * a == q * b + r,
                    shifted == r * 10,
                    shifted == b * digit + rest,
            ;
            reveal_with_fuel(pow10, 14);
        }
        q = q * 10 + digit;
        r = rest;
        i = i + 1;
    }
    proof {
        reveal_with_fuel(pow10, 14);
        assert(pow10(12) == 1_000_000_000_000);
    }
    if r > 0 {
        proof {
            assert((q + 1) * b == q * b + b) by (nonlinear_arith);
        }
        q + 1
    } else {
        proof {
            if q > 0 {
                assert((q - 1) * b == q * b - b) by (nonlinear_arith);
            }
        }
        q
    }
}

/// The timestamps of the events, in the order of the events.
pub open spec fn timestamps_of(events: Seq<CleaningEvent>) -> Seq<i64> {
    Seq::new(events.len(), |i: int| events[i].timestamp)
}

/// The timestamps of the active events, in the order of the events.
pub open spec fn active_times(events: Seq<CleaningEvent>) -> Seq<i64>
    decreases events.len(),
{
    if events.len() == 0 {
        Seq::empty()
    } else if events.last().is_active {
        active_times(events.drop_last()).push(events.last().timestamp)
    } else {
        active_times(events.drop_last())
    }
}

/// The differences between each value and the one before it.
pub open spec fn intervals_of(times: Seq<i64>) -> Seq<i64> {
    Seq::new((times.len() - 1) as nat, |i: int| (times[i + 1] - times[i]) as i64)
}

/// Every timestamp is one that the analysis takes.
pub open spec fn times_in_range(times: Seq<i64>) -> bool {
    forall|i: int| 0 <= i < times.len() ==> timestamp_in_range(#[trigger] times[i])
}

/// The weekday of each timestamp, counted from 0 for Monday, and -1 for a
/// timestamp out of range.
pub open spec fn weekday_marks(times: Seq<i64>) -> Seq<i64> {
    Seq::new(
        times.len(),
        |i: int|
            if timestamp_in_range(times[i]) {
                match utc_weekday(times[i]) {
                    Some(number) => (number - 1) as i64,
                    None => -1i64,
                }
            } else {
                -1i64
            },
    )
}

/// The hour of the day of each timestamp, and -1 for a timestamp out of
/// range.
pub open spec fn hour_marks(times: Seq<i64>) -> Seq<i64> {
    Seq::new(
        times.len(),
        |i: int|
            if timestamp_in_range(times[i]) {
                hour_of_day(times[i]) as i64
            } else {
                -1i64
            },
    )
}

/// The name of the weekday with the given number, from 0 for Monday.
pub open spec fn day_name(day: int) -> Seq<char> {
    if day == 0 {
        "Monday"@
    } else if day == 1 {
        "Tuesday"@
    } else if day == 2 {
        "Wednesday"@
    } else if day == 3 {
        "Thursday"@
    } else if day == 4 {
        "Friday"@
    } else if day == 5 {
        "Saturday"@
    } else {
        "Sunday"@
    }
}

/// The hour that begins at `hour` o'clock written as a window, such as
/// `08:00-09:00`; the hour after 23 is 00.
pub open spec fn hour_window(hour: int) -> Seq<char> {
    two_digits(hour) + ":00-"@ + two_digits((hour + 1) % 24) + ":00"@
}

/// `name` names the weekday on which most of the timestamps fall, the last
/// one in the week of several such days.
pub open spec fn is_dominant_day(times: Seq<i64>, name: Seq<char>) -> bool {
    exists|day: int| #[trigger] is_last_peak(weekday_marks(times), 7, day) && name == day_name(day)
}

/// `window` is the hour of the day in which most of the timestamps fall, the
/// latest of several such hours.
pub open spec fn is_dominant_time(times: Seq<i64>, window: Seq<char>) -> bool {
    exists|hour: int| #[trigger]
        is_last_peak(hour_marks(times), 24, hour) && window == hour_window(hour)
}

/// A number of milliseconds in hours, rounded to the nearest hour and away
/// from zero from the middle between two hours.
pub open spec fn rounded_hours(ms: int) -> int {
    if ms >= 0 {
        (ms + 1_800_000) / 3_600_000
    } else {
        -((-ms + 1_800_000) / 3_600_000)
    }
}

/// `at` is the position of the first active event.
pub open spec fn is_first_active(events: Seq<CleaningEvent>, at: int) -> bool {
    &&& 0 <= at < events.len()
    &&& events[at].is_active
    &&& forall|j: int| 0 <= j < at ==> !(#[trigger] events[j]).is_active
}

/// `schedule` is the schedule that the events of one address give, the
/// events taken in the order in which they stand.
///
/// It rests on the active events: their number is the sample size, the time
/// of the last one is the last cleaning, the differences between each and the
/// one before are the intervals, from which the dominant interval and the
/// confidence come, and the position of the first one is that of the
/// schedule. The next cleaning follows the last one by the dominant interval
/// rounded to whole hours. Weekday and hour are those of most events, active
/// or not.
pub open spec fn is_schedule_of(
    schedule: CleaningSchedule,
    address: Seq<char>,
    events: Seq<CleaningEvent>,
) -> bool {
    let times = active_times(events);
    let intervals = intervals_of(times);
    &&& times.len() >= 2
    &&& schedule.address@ == address
    &&& schedule.sample_size == times.len()
    &&& schedule.last_cleaning == times.last()
    &&& is_dominant_interval(intervals, schedule.frequency_ms as int)
    &&& is_confidence(intervals, schedule.frequency_ms as int, schedule.confidence_ppm as int)
    &&& schedule.next_cleaning == schedule.last_cleaning + rounded_hours(
        schedule.frequency_ms as int,
    ) * 3_600
    &&& is_dominant_day(timestamps_of(events), schedule.day_of_week@)
    &&& is_dominant_time(timestamps_of(events), schedule.time_of_day@)
    &&& exists|at: int| #[trigger]
        is_first_active(events, at) && schedule.coordinate == events[at].coordinate
}

/// `schedule` is what the analysis reports for its address: the schedule that
/// the events of that address give when taken in the order of time, and its
/// confidence is at least `min` millionths.
pub open spec fn is_reported(schedule: CleaningSchedule, events: Seq<CleaningEvent>, min: u32) -> bool {
    exists|order: Seq<int>| #[trigger]
        is_time_order(order, events, schedule.address@) && is_schedule_of(
            schedule,
            schedule.address@,
            arranged(events, order),
        ) && schedule.confidence_ppm >= min
}

/// The events of `address` give no schedule, or one whose confidence is
/// below `min` millionths.
pub open spec fn nothing_to_report(events: Seq<CleaningEvent>, address: Seq<char>, min: u32) -> bool {
    forall|order: Seq<int>, schedule: CleaningSchedule| #[trigger]
        is_time_order(order, events, address) && #[trigger] is_schedule_of(
            schedule,
            address,
            arranged(events, order),
        ) ==> schedule.confidence_ppm < min
}

/// The address of the event at position `i` has a schedule among
/// `schedules`.
pub open spec fn has_schedule(
    schedules: Seq<CleaningSchedule>,
    events: Seq<CleaningEvent>,
    i: int,
) -> bool {
    exists|k: int| 0 <= k < schedules.len() && (#[trigger] schedules[k]).address@ == events[i].address@
}

/// `schedules` is the analysis of `events` with the least confidence `min`:
/// one schedule for each address whose events give one of at least that
/// confidence, and nothing else. Events whose timestamps are out of range do
/// not count.
pub open spec fn is_analysis_of(
    schedules: Seq<CleaningSchedule>,
    events: Seq<CleaningEvent>,
    min: u32,
) -> bool {
    &&& forall|k: int| 0 <= k < schedules.len() ==> is_reported(#[trigger] schedules[k], events, min)
    &&& forall|k: int, l: int|
        0 <= k < l < schedules.len() ==> (#[trigger] schedules[k]).address@
            != (#[trigger] schedules[l]).address@
    &&& forall|i: int|
        0 <= i < events.len() && timestamp_in_range((#[trigger] events[i]).timestamp)
            ==> has_schedule(schedules, events, i) || nothing_to_report(
            events,
            events[i].address@,
            min,
        )
}

/// Events in a given order give one confidence only.
pub proof fn lemma_schedule_confidence_unique(
    first: CleaningSchedule,
    second: CleaningSchedule,
    address: Seq<char>,
    events: Seq<CleaningEvent>,
)
    requires
        is_schedule_of(first, address, events),
        is_schedule_of(second, address, events),
    ensures
        first.frequency_ms == second.frequency_ms,
        first.confidence_ppm == second.confidence_ppm,
{
    let intervals = intervals_of(active_times(events));
    lemma_dominant_interval_unique(
        intervals,
        first.frequency_ms as int,
        second.frequency_ms as int,
    );
    lemma_confidence_unique(
        intervals,
        first.frequency_ms as int,
        first.confidence_ppm as int,
        second.confidence_ppm as int,
    );
}

/// Three or more cleanings that follow each other at one and the same
/// interval of `seconds` give a schedule with that interval, full confidence
/// and the number of the cleanings as its sample size.
pub proof fn lemma_regular_cleanings_give_their_interval(
    schedule: CleaningSchedule,
    address: Seq<char>,
    events: Seq<CleaningEvent>,
    seconds: i64,
)
    requires
        is_schedule_of(schedule, address, events),
        active_times(events).len() >= 3,
        all_equal(intervals_of(active_times(events)), seconds),
        seconds > 0,
    ensures
        schedule.frequency_ms == seconds * 1000,
        schedule.confidence_ppm == FULL_CONFIDENCE,
        schedule.sample_size == active_times(events).len(),
{
    let intervals = intervals_of(active_times(events));
    lemma_equal_intervals_are_dominant(intervals, seconds);
    lemma_dominant_interval_unique(intervals, schedule.frequency_ms as int, seconds * 1000);
    lemma_equal_intervals_have_full_confidence(intervals, seconds, seconds * 1000);
    lemma_confidence_unique(
        intervals,
        seconds * 1000,
        schedule.confidence_ppm as int,
        FULL_CONFIDENCE as int,
    );
}

/// An address of which fewer than two events in range are active has no
/// schedule in the analysis.
pub proof fn lemma_too_few_events_give_no_schedule(
    schedules: Seq<CleaningSchedule>,
    events: Seq<CleaningEvent>,
    min: u32,
    address: Seq<char>,
    order: Seq<int>,
)
    requires
        is_analysis_of(schedules, events, min),
        is_time_order(order, events, address),
        active_times(arranged(events, order)).len() < 2,
    ensures
        forall|k: int| 0 <= k < schedules.len() ==> (#[trigger] schedules[k]).address@ != address,
{
    assert forall|k: int| 0 <= k < schedules.len() implies (#[trigger] schedules[k]).address@
        != address by {
        if schedules[k].address@ == address {
            assert(is_reported(schedules[k], events, min));
            let other = choose|other: Seq<int>| #[trigger]
                is_time_order(other, events, schedules[k].address@) && is_schedule_of(
                    schedules[k],
                    schedules[k].address@,
                    arranged(events, other),
                ) && schedules[k].confidence_ppm >= min;
            lemma_time_order_unique(
                other,
                order,
                events,
                Set::new(|i: int| belongs(events, address, i)),
            );
        }
    }
}

/// The events behind a sequence of references.
pub open spec fn referred(events: Seq<&CleaningEvent>) -> Seq<CleaningEvent> {
    Seq::new(events.len(), |i: int| *events[i])
}

/// There are no more active events than events, and their timestamps are in
/// range if all timestamps are.
pub proof fn lemma_active_times_bound(events: Seq<CleaningEvent>)
    ensures
        active_times(events).len() <= events.len(),
        times_in_range(timestamps_of(events)) ==> times_in_range(active_times(events)),
    decreases events.len(),
{
    if events.len() > 0 {
        lemma_active_times_bound(events.drop_last());
        let shorter = events.drop_last();
        if times_in_range(timestamps_of(events)) {
            assert forall|i: int| 0 <= i < shorter.len() implies timestamp_in_range(
                #[trigger] timestamps_of(shorter)[i],
            ) by {
                assert(timestamps_of(shorter)[i] == timestamps_of(events)[i]);
            }
            assert(timestamps_of(events)[events.len() - 1] == events.last().timestamp);
        }
    }
}

/// Name of the weekday with the given number, from 0 for Monday.
fn day_text(day: usize) -> (name: &'static str)
    requires
        day < 7,
    ensures
        name@ == day_name(day as int),
{
    if day == 0 {
        "Monday"
    } else if day == 1 {
        "Tuesday"
    } else if day == 2 {
        "Wednesday"
    } else if day == 3 {
        "Thursday"
    } else if day == 4 {
        "Friday"
    } else if day == 5 {
        "Saturday"
    } else {
        "Sunday"
    }
}

/// Infers the schedule of each address from its cleaning events.
#[derive(Debug, Clone, Copy)]
pub struct CorrelationAnalyzer {
    /// Least confidence, in millionths, with which a schedule is reported.
    min_confidence_ppm: u32,
}

impl CorrelationAnalyzer {
    /// An analyzer that reports the schedules whose confidence is at least
    /// `min_confidence_ppm` millionths.
    pub fn new(min_confidence_ppm: u32) -> (analyzer: Self)
        ensures
            analyzer.min_confidence() == min_confidence_ppm,
    {
        Self { min_confidence_ppm }
    }

    /// Least confidence, in millionths, with which a schedule is reported.
    pub closed spec fn min_confidence(&self) -> u32 {
        self.min_confidence_ppm
    }

    /// The dominant interval of intervals given in seconds, in milliseconds;
    /// an error if there is no interval.
    pub fn find_dominant_interval(&self, intervals: &[i64]) -> (found: Result<i64, AMPError>)
        requires
            intervals_in_range(intervals@),
        ensures
            found is Ok <==> intervals@.len() > 0,
            found matches Ok(interval) ==> is_dominant_interval(intervals@, interval as int)
                && -1000 * INTERVAL_LIMIT <= interval <= 1000 * INTERVAL_LIMIT,
            found matches Err(error) ==> error matches AMPError::CorrelationFailed(message)
                && message@ == "No intervals to analyze"@,
    {
        if intervals.len() == 0 {
            return Err(AMPError::CorrelationFailed(String::from_str("No intervals to analyze")));
        }
        let ends: (i64, i64) = extremes(intervals);
        let low: i64 = ends.0;
        let high: i64 = ends.1;
        if low == high {
            return Ok(low * 1000);
        }
        let width: i64 = high - low;
        let mut marks: Vec<i64> = Vec::new();
        let mut i: usize = 0;
        while i < intervals.len()
            invariant
                i <= intervals.len(),
                marks@.len() == i,
                low == lowest(intervals@),
                high == highest(intervals@),
                width == high - low,
                0 < width <= 2 * INTERVAL_LIMIT,
                forall|j: int| 0 <= j < intervals@.len() ==> low <= #[trigger] intervals@[j] <= high,
                forall|j: int| 0 <= j < i ==> marks@[j] == bin_marks(intervals@)[j],
            decreases intervals.len() - i,
        {
            let offset: i64 = intervals[i] - low;
            let bin: i64 = (offset * 20) / width;
            let bin: i64 = if bin < 0 {
                0
            } else if bin >= 20 {
                19
            } else {
                bin
            };
            marks.push(bin);
            i = i + 1;
        }
        assert(marks@ =~= bin_marks(intervals@));
        let peak: usize = last_peak(&marks, BIN_COUNT);
        proof {
            assert(0 <= (2 * peak + 1) * width <= 39 * width) by (nonlinear_arith)
                requires
                    0 <= peak < 20,
                    0 < width,
            ;
        }
        let centre: i64 = low * 1000 + (2 * peak as i64 + 1) * width * 25;
        assert(centre == bin_centre_ms(intervals@, peak as int)) by (nonlinear_arith)
            requires
                centre == low * 1000 + (2 * peak + 1) * width * 25,
                width == high - low,
                bin_centre_ms(intervals@, peak as int) == low * 1000 + (2 * peak + 1) * (high
                    - low) * 25,
        ;
        Ok(centre)
    }

    /// The confidence, in millionths, that intervals given in seconds recur
    /// every `expected_ms` milliseconds.
    pub fn calculate_confidence(&self, intervals: &[i64], expected_ms: i64) -> (confidence: u32)
        requires
            intervals_in_range(intervals@),
            intervals@.len() <= MAX_EVENTS,
            -1000 * INTERVAL_LIMIT <= expected_ms <= 1000 * INTERVAL_LIMIT,
        ensures
            is_confidence(intervals@, expected_ms as int, confidence as int),
    {
        if intervals.len() < 2 || expected_ms == 0 {
            return 0;
        }
        if expected_ms < 0 {
            return FULL_CONFIDENCE;
        }
        let count: i128 = intervals.len() as i128;
        let both: (i128, i128) = sums(intervals);
        let sum: i128 = both.0;
        let squares: i128 = both.1;
        proof {
            assert(0 <= count * squares <= 20_282_409_603_651_670_423_947_251_286_016)
                by (nonlinear_arith)
                requires
                    0 <= count <= 262_144,
                    0 <= squares <= count * 295_147_905_179_352_825_856,
            ;
            assert(0 <= sum * sum <= 20_282_409_603_651_670_423_947_251_286_016)
                by (nonlinear_arith)
                requires
                    -(count * 17_179_869_184) <= sum <= count * 17_179_869_184,
                    0 <= count <= 262_144,
            ;
        }
        let variance: i128 = count * squares - sum * sum;
        assert(variance == spread(intervals@));
        if variance <= 0 {
            proof {
                let slack = (FULL_CONFIDENCE - FULL_CONFIDENCE) * intervals@.len() * expected_ms;
                assert(slack * slack >= 0) by (nonlinear_arith);
                assert(1_000_000_000_000_000_000 * spread(intervals@) <= 0) by (nonlinear_arith)
                    requires
                        spread(intervals@) <= 0,
                ;
            }
            return FULL_CONFIDENCE;
        }
        proof {
            assert(0 < count * expected_ms <= 4_503_599_627_370_496_000) by (nonlinear_arith)
                requires
                    2 <= count <= 262_144,
                    0 < expected_ms <= 17_179_869_184_000,
            ;
            lemma_square_monotonic((count * expected_ms) as int, 4_503_599_627_370_496_000);
            assert(4_503_599_627_370_496_000int * 4_503_599_627_370_496_000int
                == 20_282_409_603_651_670_423_947_251_286_016_000_000);
            assert((count * expected_ms) * (count * expected_ms) > 0) by (nonlinear_arith)
                requires
                    count * expected_ms > 0,
            ;
        }
        let scaled: i128 = count * expected_ms as i128;
        let a: u128 = (variance * 1_000_000) as u128;
        let b: u128 = (scaled * scaled) as u128;
        let ghost n = intervals@.len() as int;
        if a >= b {
            proof {
                let slack = (FULL_CONFIDENCE - 1) * n * expected_ms;
                assert(slack * slack < 1_000_000_000_000_000_000 * spread(intervals@))
                    by (nonlinear_arith)
                    requires
                        slack == 999_999 * n * expected_ms,
                        b == (n * expected_ms) * (n * expected_ms),
                        b > 0,
                        a >= b,
                        a == spread(intervals@) * 1_000_000,
                ;
            }
            return 0;
        }
        let quotient: u128 = scaled_quotient(a, b);
        let root: u128 = ceil_sqrt(quotient);
        proof {
            assert(1_000_000 * 1_000_000 * 1 >= quotient);
            lemma_rounds_up_root_bound(root as int, quotient as int, 1, 1_000_000);
        }
        let confidence: u32 = FULL_CONFIDENCE - root as u32;
        proof {
            let v = spread(intervals@);
            if confidence > 0 {
                let slack = (FULL_CONFIDENCE - confidence) * n * expected_ms;
                assert(slack * slack >= 1_000_000_000_000_000_000 * v) by (nonlinear_arith)
                    requires
                        slack == root * n * expected_ms,
                        b == (n * expected_ms) * (n * expected_ms),
                        root * root >= quotient,
                        quotient * b >= 1_000_000_000_000 * a,
                        a == v * 1_000_000,
                        b > 0,
                ;
            }
            if confidence < FULL_CONFIDENCE {
                let slack = (FULL_CONFIDENCE - (confidence + 1)) * n * expected_ms;
                assert(slack * slack < 1_000_000_000_000_000_000 * v) by (nonlinear_arith)
                    requires
                        slack == (root - 1) * n * expected_ms,
                        b == (n * expected_ms) * (n * expected_ms),
                        root > 0,
                        (root - 1) * (root - 1) < quotient,
                        quotient > 0,
                        (quotient - 1) * b < 1_000_000_000_000 * a,
                        a == v * 1_000_000,
                        b > 0,
                ;
            }
        }
        confidence
    }

    /// Name of the weekday on which most of the events fall.
    pub fn get_dominant_day(&self, events: &[&CleaningEvent]) -> (name: String)
        ensures
            is_dominant_day(timestamps_of(referred(events@)), name@),
    {
        let ghost times = timestamps_of(referred(events@));
        let mut marks: Vec<i64> = Vec::new();
        let mut i: usize = 0;
        while i < events.len()
            invariant
                i <= events.len(),
                marks@.len() == i,
                times == timestamps_of(referred(events@)),
                forall|j: int| 0 <= j < i ==> marks@[j] == weekday_marks(times)[j],
            decreases events.len() - i,
        {
            let timestamp: i64 = events[i].timestamp;
            assert(times[i as int] == timestamp);
            let mark: i64 = if is_timestamp_in_range(timestamp) {
                match weekday_number(timestamp) {
                    Some(number) => number as i64 - 1,
                    None => -1,
                }
            } else {
                -1
            };
            marks.push(mark);
            i = i + 1;
        }
        assert(marks@ =~= weekday_marks(times));
        let day: usize = last_peak(&marks, 7);
        String::from_str(day_text(day))
    }

    /// The hour of the day in which most of the events fall, as a window
    /// such as `08:00-09:00`.
    pub fn get_dominant_time(&self, events: &[&CleaningEvent]) -> (window: String)
        ensures
            is_dominant_time(timestamps_of(referred(events@)), window@),
    {
        let ghost times = timestamps_of(referred(events@));
        let mut marks: Vec<i64> = Vec::new();
        let mut i: usize = 0;
        while i < events.len()
            invariant
                i <= events.len(),
                marks@.len() == i,
                times == timestamps_of(referred(events@)),
                forall|j: int| 0 <= j < i ==> marks@[j] == hour_marks(times)[j],
            decreases events.len() - i,
        {
            let timestamp: i64 = events[i].timestamp;
            assert(times[i as int] == timestamp);
            let mark: i64 = if is_timestamp_in_range(timestamp) {
                match hour_number(timestamp) {
                    Some(number) => number as i64,
                    None => -1,
                }
            } else {
                -1
            };
            marks.push(mark);
            i = i + 1;
        }
        assert(marks@ =~= hour_marks(times));
        let hour: usize = last_peak(&marks, 24);
        let mut window: String = String::new();
        push_two_digits(&mut window, hour as u32);
        window.append(":00-");
        push_two_digits(&mut window, ((hour + 1) % 24) as u32);
        window.append(":00");
        assert(window@ =~= hour_window(hour as int));
        window
    }

    /// The schedule that the events of one address give, the events taken in
    /// the order in which they stand; an error if fewer than two of them are
    /// active.
    pub fn analyze_address(&self, address: &str, events: &[&CleaningEvent]) -> (made: Result<
        CleaningSchedule,
        AMPError,
    >)
        requires
            events@.len() <= MAX_EVENTS,
            times_in_range(timestamps_of(referred(events@))),
        ensures
            made is Ok <==> active_times(referred(events@)).len() >= 2,
            made matches Ok(schedule) ==> is_schedule_of(schedule, address@, referred(events@)),
            made matches Err(error) ==> error matches AMPError::CorrelationFailed(message)
                && message@ == "No intervals calculated"@,
    {
        let ghost all = referred(events@);
        let mut timestamps: Vec<i64> = Vec::new();
        let mut first: usize = 0;
        let mut i: usize = 0;
        while i < events.len()
            invariant
                i <= events.len(),
                all == referred(events@),
                timestamps@ == active_times(all.take(i as int)),
                timestamps@.len() <= i,
                timestamps@.len() > 0 ==> is_first_active(all, first as int) && first < i,
                timestamps@.len() == 0 ==> forall|j: int| 0 <= j < i ==> !(#[trigger] all[j]).is_active,
            decreases events.len() - i,
        {
            proof {
                let longer = all.take(i + 1);
                assert(longer.drop_last() =~= all.take(i as int));
                assert(longer.last() == all[i as int]);
            }
            if events[i].is_active {
                if timestamps.len() == 0 {
                    first = i;
                }
                timestamps.push(events[i].timestamp);
            }
            i = i + 1;
        }
        assert(all.take(all.len() as int) =~= all);
        if timestamps.len() < 2 {
            return Err(AMPError::CorrelationFailed(String::from_str("No intervals calculated")));
        }
        proof {
            lemma_active_times_bound(all);
        }
        let mut intervals: Vec<i64> = Vec::new();
        let mut k: usize = 1;
        while k < timestamps.len()
            invariant
                1 <= k <= timestamps.len(),
                times_in_range(timestamps@),
                intervals@.len() == k - 1,
                forall|j: int| 0 <= j < k - 1 ==> intervals@[j] == intervals_of(timestamps@)[j],
            decreases timestamps.len() - k,
        {
            assert(timestamp_in_range(timestamps@[k as int]));
            assert(timestamp_in_range(timestamps@[k - 1]));
            intervals.push(timestamps[k] - timestamps[k - 1]);
            k = k + 1;
        }
        assert(intervals@ =~= intervals_of(timestamps@));
        assert(intervals_in_range(intervals@)) by {
            assert forall|j: int| 0 <= j < intervals@.len() implies -INTERVAL_LIMIT
                <= #[trigger] intervals@[j] <= INTERVAL_LIMIT by {
                assert(timestamp_in_range(timestamps@[j + 1]));
                assert(timestamp_in_range(timestamps@[j]));
            }
        }
        let frequency_ms: i64 = match self.find_dominant_interval(intervals.as_slice()) {
            Ok(found) => found,
            Err(error) => {
                return Err(error);
            },
        };
        let confidence_ppm: u32 = self.calculate_confidence(intervals.as_slice(), frequency_ms);
        let day_of_week: String = self.get_dominant_day(events);
        let time_of_day: String = self.get_dominant_time(events);
        let last_cleaning: i64 = timestamps[timestamps.len() - 1];
        assert(timestamp_in_range(timestamps@[timestamps@.len() - 1]));
        let hours: i64 = if frequency_ms >= 0 {
            (frequency_ms + 1_800_000) / 3_600_000
        } else {
            -((-frequency_ms + 1_800_000) / 3_600_000)
        };
        let next_cleaning: i64 = last_cleaning + hours * 3_600;
        Ok(
            CleaningSchedule {
                address: String::from_str(address),
                coordinate: events[first].coordinate,
                next_cleaning,
                frequency_ms,
                confidence_ppm,
                day_of_week,
                time_of_day,
                last_cleaning,
                sample_size: timestamps.len(),
            },
        )
    }

    /// The schedules of the addresses that occur among `events`: for each
    /// address the schedule that its events give in the order of time, if
    /// they give one and its confidence reaches the least confidence of this
    /// analyzer.
    pub fn analyze(&self, events: Vec<CleaningEvent>) -> (made: Result<
        Vec<CleaningSchedule>,
        AMPError,
    >)
        requires
            events@.len() <= MAX_EVENTS,
        ensures
            made matches Ok(schedules) && is_analysis_of(
                schedules@,
                events@,
                self.min_confidence(),
            ),
    {
        let ghost min = self.min_confidence_ppm;
        let mut schedules: Vec<CleaningSchedule> = Vec::new();
        let mut i: usize = 0;
        while i < events.len()
            invariant
                i <= events@.len() <= MAX_EVENTS,
                min == self.min_confidence_ppm,
                forall|k: int|
                    0 <= k < schedules@.len() ==> is_reported(#[trigger] schedules@[k], events@, min),
                forall|k: int, l: int|
                    0 <= k < l < schedules@.len() ==> (#[trigger] schedules@[k]).address@
                        != (#[trigger] schedules@[l]).address@,
                forall|k: int|
                    0 <= k < schedules@.len() ==> occurs_before(
                        events@,
                        (#[trigger] schedules@[k]).address@,
                        i as int,
                    ),
                forall|j: int|
                    0 <= j < i && timestamp_in_range((#[trigger] events@[j]).timestamp)
                        ==> has_schedule(schedules@, events@, j) || nothing_to_report(
                        events@,
                        events@[j].address@,
                        min,
                    ),
            decreases events.len() - i,
        {
            let ghost address = events@[i as int].address@;
            let ghost before = schedules@;
            if is_timestamp_in_range(events[i].timestamp) {
                if seen_before(&events, i) {
                    proof {
                        assert(occurs_before(events@, address, i as int));
                        let j = choose|j: int| 0 <= j < i && belongs(events@, address, j);
                        assert(timestamp_in_range(events@[j].timestamp));
                        if has_schedule(schedules@, events@, j) {
                            let k = choose|k: int|
                                0 <= k < schedules@.len() && (#[trigger] schedules@[k]).address@
                                    == events@[j].address@;
                            assert(schedules@[k].address@ == events@[i as int].address@);
                        }
                    }
                } else {
                    let sorted: Vec<(i64, usize)> = time_ordered_group(&events, i);
                    let ghost order = positions_of(sorted@);
                    let mut group: Vec<&CleaningEvent> = Vec::new();
                    let mut k: usize = 0;
                    while k < sorted.len()
                        invariant
                            k <= sorted@.len(),
                            group@.len() == k,
                            forall|j: int|
                                0 <= j < sorted@.len() ==> (#[trigger] sorted@[j]).1
                                    < events@.len(),
                            forall|j: int|
                                0 <= j < k ==> *(#[trigger] group@[j]) == events@[sorted@[j].1 as int],
                        decreases sorted.len() - k,
                    {
                        group.push(&events[sorted[k].1]);
                        k = k + 1;
                    }
                    proof {
                        assert(referred(group@) =~= arranged(events@, order));
                        assert forall|j: int| 0 <= j < group@.len() implies timestamp_in_range(
                            #[trigger] timestamps_of(referred(group@))[j],
                        ) by {
                            assert(belongs(events@, address, order[j]));
                        }
                    }
                    let outcome: Result<CleaningSchedule, AMPError> = self.analyze_address(
                        events[i].address.as_str(),
                        group.as_slice(),
                    );
                    let mut reported: bool = false;
                    match outcome {
                        Ok(schedule) => {
                            if schedule.confidence_ppm >= self.min_confidence_ppm {
                                proof {
                                    assert(is_time_order(order, events@, schedule.address@));
                                    assert(is_reported(schedule, events@, min));
                                    assert(belongs(events@, schedule.address@, i as int));
                                }
                                schedules.push(schedule);
                                reported = true;
                                proof {
                                    assert(schedules@[before.len() as int].address@ == address);
                                    assert forall|k: int, l: int|
                                        0 <= k < l < schedules@.len() implies (
                                    #[trigger] schedules@[k]).address@
                                        != (#[trigger] schedules@[l]).address@ by {
                                        if l == before.len() {
                                            assert(occurs_before(
                                                events@,
                                                before[k].address@,
                                                i as int,
                                            ));
                                        } else {
                                            assert(before[k].address@ != before[l].address@);
                                        }
                                    }
                                }
                            } else {
                                proof {
                                    assert forall|other: Seq<int>, found: CleaningSchedule|
                                     #[trigger]
                                        is_time_order(other, events@, address)
                                            && #[trigger] is_schedule_of(
                                            found,
                                            address,
                                            arranged(events@, other),
                                        ) implies found.confidence_ppm < min by {
                                        lemma_time_order_unique(
                                            other,
                                            order,
                                            events@,
                                            Set::new(|i: int| belongs(events@, address, i)),
                                        );
                                        lemma_schedule_confidence_unique(
                                            found,
                                            schedule,
                                            address,
                                            arranged(events@, order),
                                        );
                                    }
                                    assert(nothing_to_report(events@, address, min));
                                }
                            }
                        },
                        Err(_) => {
                            proof {
                                assert forall|other: Seq<int>, found: CleaningSchedule|
                                 #[trigger]
                                    is_time_order(other, events@, address)
                                        && #[trigger] is_schedule_of(
                                        found,
                                        address,
                                        arranged(events@, other),
                                    ) implies found.confidence_ppm < min by {
                                    lemma_time_order_unique(
                                        other,
                                        order,
                                        events@,
                                        Set::new(|i: int| belongs(events@, address, i)),
                                    );
                                }
                                assert(nothing_to_report(events@, address, min));
                            }
                        },
                    }
                    proof {
                        if reported {
                            assert(has_schedule(schedules@, events@, i as int));
                        }
                    }
                }
            }
            proof {
                assert forall|k: int| 0 <= k < schedules@.len() implies is_reported(
                    #[trigger] schedules@[k],
                    events@,
                    min,
                ) by {
                    if k < before.len() {
                        assert(schedules@[k] == before[k]);
                    }
                }
                assert forall|k: int| 0 <= k < schedules@.len() implies occurs_before(
                    events@,
                    (#[trigger] schedules@[k]).address@,
                    i + 1,
                ) by {
                    if k < before.len() {
                        assert(schedules@[k] == before[k]);
                        assert(occurs_before(events@, before[k].address@, i as int));
                        let j = choose|j: int|
                            0 <= j < i && belongs(events@, before[k].address@, j);
                        assert(belongs(events@, schedules@[k].address@, j));
                    } else {
                        assert(belongs(events@, schedules@[k].address@, i as int));
                    }
                }
                assert forall|j: int|
                    0 <= j < i + 1 && timestamp_in_range(
                        (#[trigger] events@[j]).timestamp,
                    ) implies has_schedule(schedules@, events@, j) || nothing_to_report(
                    events@,
                    events@[j].address@,
                    min,
                ) by {
                    if j < i {
                        if has_schedule(before, events@, j) {
                            let k = choose|k: int|
                                0 <= k < before.len() && (#[trigger] before[k]).address@
                                    == events@[j].address@;
                            assert(schedules@[k] == before[k]);
                        }
                    }
                }
            }
            i = i + 1;
        }
        Ok(schedules)
    }
}




} // verus!
