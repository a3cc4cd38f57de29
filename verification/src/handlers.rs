//! What the server answers to its requests, given the schedules and the
//! time.

use crate::models::{AddressCheckResponse, AlertLevel, CleaningSchedule, HealthResponse};
use crate::text::{decimal_number, digit_char, digit_text, push_number, same_text};
use vstd::prelude::*;
use vstd::string::StringExecFns;

verus! {

/// The query for schedules.
#[derive(Debug, Clone)]
pub struct ScheduleQuery {
    /// The addresses asked for, separated by commas; all if there is none.
    pub addresses: Option<String>,
    /// The form of the answer; `minimal` if there is none.
    pub format: Option<String>,
}

/// The question whether an address has a schedule.
#[derive(Debug, Clone)]
pub struct AddressCheckRequest {
    pub address: String,
    pub latitude: Option<String>,
    pub longitude: Option<String>,
}

impl ScheduleQuery {
    /// The answer is wanted in its minimal form.
    pub open spec fn minimal(self) -> bool {
        match self.format {
            Some(format) => format@ == "minimal"@,
            None => true,
        }
    }

    /// Tells whether the answer is wanted in its minimal form.
    pub fn is_minimal(&self) -> (minimal: bool)
        ensures
            minimal == self.minimal(),
    {
        match &self.format {
            Some(format) => same_text(format.as_str(), "minimal"),
            None => true,
        }
    }
}

/// The whole hours from `now` until `then`, a part of an hour not counted;
/// negative if `then` is past.
pub open spec fn hours_between(now: int, then: int) -> int {
    if then >= now {
        (then - now) / 3_600
    } else {
        -((now - then) / 3_600)
    }
}

/// A number of milliseconds in tenths of an hour, rounded to the nearest
/// tenth, and up from the middle between two tenths.
pub open spec fn tenths_of_hours(ms: int) -> int {
    (ms + 180_000) / 360_000
}

/// How often an address is cleaned, in words: the interval in hours with
/// one decimal.
pub open spec fn frequency_text(ms: int) -> Seq<char> {
    let tenths = tenths_of_hours(ms);
    "Every "@ + decimal_number(tenths / 10) + "."@ + seq![digit_char(tenths % 10)] + " hours"@
}

/// The answer to the question about `address`, asked at the time `now`,
/// given the schedule of the address if it has one.
pub open spec fn is_check_of(
    response: AddressCheckResponse,
    schedule: Option<CleaningSchedule>,
    address: Seq<char>,
    now: int,
) -> bool {
    match schedule {
        Some(schedule) => {
            let hours = hours_between(now, schedule.next_cleaning as int);
            &&& response.found
            &&& response.address@ == address
            &&& response.next_cleaning == Some(schedule.next_cleaning)
            &&& response.hours_until == Some(hours as i64)
            &&& response.alert_level == Some(AlertLevel::level_for(hours))
            &&& response.frequency matches Some(text) && text@ == frequency_text(
                schedule.frequency_ms as int,
            )
            &&& response.confidence == Some(schedule.confidence_ppm)
        },
        None => {
            &&& !response.found
            &&& response.address@ == address
            &&& response.next_cleaning is None
            &&& response.hours_until is None
            &&& response.alert_level is None
            &&& response.frequency is None
            &&& response.confidence is None
        },
    }
}

/// The whole hours from `now` until `then`.
fn hours_until(now: i64, then: i64) -> (hours: i64)
    ensures
        hours == hours_between(now as int, then as int),
{
    let gap: i128 = then as i128 - now as i128;
    if gap >= 0 {
        (gap / 3_600) as i64
    } else {
        (-((-gap) / 3_600)) as i64
    }
}

/// How often an address is cleaned, in words.
fn frequency_in_words(ms: i64) -> (text: String)
    ensures
        text@ == frequency_text(ms as int),
{
    let shifted: i128 = ms as i128 + 180_000;
    let tenths: i128 = if shifted >= 0 {
        shifted / 360_000
    } else {
        -((-shifted + 359_999) / 360_000)
    };
    assert(tenths == tenths_of_hours(ms as int));
    let whole: i128 = if tenths >= 0 {
        tenths / 10
    } else {
        -((-tenths + 9) / 10)
    };
    let last: i128 = tenths - whole * 10;
    assert(whole == tenths / 10 && last == tenths % 10);
    let mut text: String = String::from_str("Every ");
    push_number(&mut text, whole as i64);
    text.append(".");
    text.append(digit_text(last as u32));
    text.append(" hours");
    proof {
        reveal_strlit(".");
        assert(text@ =~= frequency_text(ms as int));
    }
    text
}

/// Answers the question whether an address has a schedule, and how soon
/// its next cleaning is.
pub fn check_address(schedule: Option<&CleaningSchedule>, req: AddressCheckRequest, now: i64) -> (response:
    AddressCheckResponse)
    ensures
        is_check_of(
            response,
            match schedule {
                Some(schedule) => Some(*schedule),
                None => None,
            },
            req.address@,
            now as int,
        ),
{
    match schedule {
        Some(schedule) => {
            let hours: i64 = hours_until(now, schedule.next_cleaning);
            AddressCheckResponse {
                found: true,
                address: req.address,
                next_cleaning: Some(schedule.next_cleaning),
                hours_until: Some(hours),
                alert_level: Some(AlertLevel::from_hours_until(hours)),
                frequency: Some(frequency_in_words(schedule.frequency_ms)),
                confidence: Some(schedule.confidence_ppm),
            }
        },
        None => AddressCheckResponse {
            found: false,
            address: req.address,
            next_cleaning: None,
            hours_until: None,
            alert_level: None,
            frequency: None,
            confidence: None,
        },
    }
}

/// Reports that the server is up, with the time of the report, the time of
/// the last update and the number of schedules held.
pub fn health(now: i64, last_update: Option<i64>, data_points: usize) -> (response: HealthResponse)
    ensures
        response.status@ == "healthy"@,
        response.timestamp == now,
        response.last_update == last_update,
        response.data_points == data_points,
        response.version@ == "1.0.0"@,
{
    HealthResponse {
        status: String::from_str("healthy"),
        timestamp: now,
        last_update,
        data_points,
        version: String::from_str("1.0.0"),
    }
}

} // verus!
