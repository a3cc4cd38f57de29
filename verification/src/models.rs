//! Plain data shared by the correlation engine and the schedule analyzer.

use crate::decimal::{decimal_text, parsed_decimal, DecimalNumber};
use vstd::prelude::*;
use vstd::string::StringExecFns;

verus! {

/// The texts joined into one, with a comma between each two.
pub open spec fn joined_by_commas(parts: Seq<Seq<char>>) -> Seq<char>
    decreases parts.len(),
{
    if parts.len() == 0 {
        Seq::empty()
    } else if parts.len() == 1 {
        parts[0]
    } else {
        joined_by_commas(parts.drop_last()) + seq![','] + parts.last()
    }
}

/// The views of the texts.
pub open spec fn texts_of(parts: Seq<String>) -> Seq<Seq<char>> {
    Seq::new(parts.len(), |i: int| parts[i]@)
}

/// `parts` are the pieces of `text` between its commas.
pub open spec fn is_comma_split(parts: Seq<Seq<char>>, text: Seq<char>) -> bool {
    &&& parts.len() >= 1
    &&& joined_by_commas(parts) == text
    &&& forall|i: int, j: int|
        0 <= i < parts.len() && 0 <= j < parts[i].len() ==> parts[i][j] != ','
}

/// What [`GpsCoordinate::parse`] makes of the pieces of a text: the
/// coordinate that the two pieces give as latitude and longitude once the
/// white space at their ends is taken off, and a complaint if there are not
/// two pieces.
pub open spec fn coordinate_from_parts(parts: Seq<Seq<char>>) -> Result<GpsCoordinate, Seq<char>> {
    if parts.len() != 2 {
        Err("Expected format: 'lat,lon'"@)
    } else {
        coordinate_from(trimmed(parts[0]), trimmed(parts[1]))
    }
}

/// A text without the white space at its ends, as the standard library trims
/// it.
pub uninterp spec fn trimmed(text: Seq<char>) -> Seq<char>;

/// Cuts a text at its commas with the standard library's `str::split`.
///
/// Believed of the standard library: the pieces hold no comma, there is at
/// least one, and joined by commas they give the text back.
#[verifier::external_body]
fn split_at_commas(text: &str) -> (parts: Vec<String>)
    ensures
        is_comma_split(texts_of(parts@), text@),
{
    let mut parts: Vec<String> = Vec::new();
    for part in text.split(',') {
        parts.push(part.to_string());
    }
    parts
}

/// Takes the white space off the ends of a text with the standard library's
/// `str::trim`.
///
/// Believed of the standard library: the outcome depends on the text alone.
#[verifier::external_body]
fn trim_text(text: &str) -> (bare: String)
    ensures
        bare@ == trimmed(text@),
{
    text.trim().to_string()
}

/// A position on the globe in degrees, as exact decimal numbers.
#[derive(Debug, Clone, Copy, PartialEq, Eq, Structural)]
pub struct GpsCoordinate {
    /// Degrees north, between -90 and 90.
    pub latitude: DecimalNumber,
    /// Degrees east, between -180 and 180.
    pub longitude: DecimalNumber,
}

/// What [`GpsCoordinate::new`] makes of a latitude and a longitude given as
/// text: the coordinate, or the message that says what is wrong with the first
/// of the two that is at fault. Unreadable text comes before a value out of
/// range, the latitude before the longitude.
pub open spec fn coordinate_from(lat: Seq<char>, lon: Seq<char>) -> Result<
    GpsCoordinate,
    Seq<char>,
> {
    match (parsed_decimal(lat), parsed_decimal(lon)) {
        (None, _) => Err("Invalid latitude: "@ + lat),
        (Some(_), None) => Err("Invalid longitude: "@ + lon),
        (Some((lat_mantissa, lat_scale)), Some((lon_mantissa, lon_scale))) => {
            let latitude = DecimalNumber { mantissa: lat_mantissa, scale: lat_scale };
            let longitude = DecimalNumber { mantissa: lon_mantissa, scale: lon_scale };
            if !(latitude.at_least(-9000) && latitude.at_most(9000)) {
                Err("Latitude out of range: "@ + decimal_text(lat_mantissa, lat_scale))
            } else if !(longitude.at_least(-18000) && longitude.at_most(18000)) {
                Err("Longitude out of range: "@ + decimal_text(lon_mantissa, lon_scale))
            } else {
                Ok(GpsCoordinate { latitude, longitude })
            }
        },
    }
}

impl GpsCoordinate {
    /// Both numbers are well formed and within the range of a latitude and a
    /// longitude.
    pub open spec fn well_formed(self) -> bool {
        &&& self.latitude.well_formed()
        &&& self.longitude.well_formed()
        &&& self.latitude.at_least(-9000) && self.latitude.at_most(9000)
        &&& self.longitude.at_least(-18000) && self.longitude.at_most(18000)
    }

    /// The position lies within the bounds of the city: latitude from 55.55
    /// to 55.65, longitude from 12.90 to 13.10.
    pub open spec fn in_malmo(self) -> bool {
        &&& self.latitude.at_least(5555) && self.latitude.at_most(5565)
        &&& self.longitude.at_least(1290) && self.longitude.at_most(1310)
    }

    /// Reads a coordinate from a latitude and a longitude given as text and
    /// checks their ranges.
    pub fn new(lat: &str, lon: &str) -> (made: Result<Self, String>)
        ensures
            match made {
                Ok(coordinate) => coordinate_from(lat@, lon@) == Ok::<
                    GpsCoordinate,
                    Seq<char>,
                >(coordinate) && coordinate.well_formed(),
                Err(message) => coordinate_from(lat@, lon@) == Err::<GpsCoordinate, Seq<char>>(
                    message@,
                ),
            },
    {
        let latitude: DecimalNumber = match DecimalNumber::parse(lat) {
            Some(number) => number,
            None => {
                let mut message: String = String::from_str("Invalid latitude: ");
                message.append(lat);
                return Err(message);
            },
        };
        let longitude: DecimalNumber = match DecimalNumber::parse(lon) {
            Some(number) => number,
            None => {
                let mut message: String = String::from_str("Invalid longitude: ");
                message.append(lon);
                return Err(message);
            },
        };
        if !latitude.is_between(-9000, 9000) {
            let mut message: String = String::from_str("Latitude out of range: ");
            let shown: String = latitude.to_string();
            message.append(shown.as_str());
            return Err(message);
        }
        if !longitude.is_between(-18000, 18000) {
            let mut message: String = String::from_str("Longitude out of range: ");
            let shown: String = longitude.to_string();
            message.append(shown.as_str());
            return Err(message);
        }
        Ok(GpsCoordinate { latitude, longitude })
    }

    /// Reads a coordinate from a text such as `55.6050, 13.0038`: latitude
    /// and longitude with a comma between them and white space around them
    /// at will.
    pub fn parse(text: &str) -> (made: Result<Self, String>)
        ensures
            made matches Ok(coordinate) ==> coordinate.well_formed(),
            exists|parts: Seq<Seq<char>>| #[trigger]
                is_comma_split(parts, text@) && match made {
                    Ok(coordinate) => coordinate_from_parts(parts) == Ok::<
                        GpsCoordinate,
                        Seq<char>,
                    >(coordinate),
                    Err(message) => coordinate_from_parts(parts) == Err::<GpsCoordinate, Seq<char>>(
                        message@,
                    ),
                },
    {
        let parts: Vec<String> = split_at_commas(text);
        let ghost pieces = texts_of(parts@);
        assert(is_comma_split(pieces, text@));
        if parts.len() != 2 {
            return Err(String::from_str("Expected format: 'lat,lon'"));
        }
        let lat: String = trim_text(parts[0].as_str());
        let lon: String = trim_text(parts[1].as_str());
        Self::new(lat.as_str(), lon.as_str())
    }

    /// Tells whether the position lies within the bounds of the city.
    pub fn is_in_malmo(&self) -> (inside: bool)
        requires
            self.latitude.well_formed(),
            self.longitude.well_formed(),
        ensures
            inside == self.in_malmo(),
    {
        self.latitude.is_between(5555, 5565) && self.longitude.is_between(1290, 1310)
    }
}

impl std::str::FromStr for GpsCoordinate {
    type Err = String;
    /// Reads a coordinate from a text, as [`GpsCoordinate::parse`] does.
    fn from_str(s: &str) -> (made: Result<Self, String>)
        ensures
            made matches Ok(coordinate) ==> coordinate.well_formed(),
            is_coordinate_of(made, s@),
    {
        GpsCoordinate::parse(s)
    }
}

/// `made` is what reading a coordinate from `text` gives: what the pieces of
/// the text between its commas make, the coordinate itself or the message
/// that says what is wrong with them.
pub open spec fn is_coordinate_of(made: Result<GpsCoordinate, String>, text: Seq<char>) -> bool {
    exists|parts: Seq<Seq<char>>| #[trigger]
        is_comma_split(parts, text) && match made {
            Ok(coordinate) => coordinate_from_parts(parts) == Ok::<GpsCoordinate, Seq<char>>(
                coordinate,
            ),
            Err(message) => coordinate_from_parts(parts) == Err::<GpsCoordinate, Seq<char>>(
                message@,
            ),
        }
}

/// One observation that an address was, or was not, being cleaned.
#[derive(Debug, Clone)]
pub struct CleaningEvent {
    /// Identifier of the address.
    pub address: String,
    /// Position of the address.
    pub coordinate: GpsCoordinate,
    /// Time of the observation in seconds since 1970-01-01 00:00:00 UTC.
    pub timestamp: i64,
    /// Whether cleaning was going on.
    pub is_active: bool,
}

/// The recurring cleaning of one address, as inferred from its events.
#[derive(Debug, Clone)]
pub struct CleaningSchedule {
    /// Identifier of the address.
    pub address: String,
    /// Position of the address.
    pub coordinate: GpsCoordinate,
    /// Predicted time of the next cleaning, in seconds since the epoch.
    pub next_cleaning: i64,
    /// Time between two cleanings in milliseconds.
    pub frequency_ms: i64,
    /// How regular the cleanings are, in millionths: 0 to 1 000 000.
    pub confidence_ppm: u32,
    /// Name of the weekday on which most events fall.
    pub day_of_week: String,
    /// The hour of the day in which most events fall, as `HH:00-HH:00`.
    pub time_of_day: String,
    /// Time of the latest cleaning, in seconds since the epoch.
    pub last_cleaning: i64,
    /// Number of cleanings that the schedule rests on.
    pub sample_size: usize,
}

/// How soon the next cleaning is, as shown to a user.
#[derive(Debug, Clone, Copy, PartialEq, Eq, Structural)]
pub enum AlertLevel {
    /// More than 24 hours away.
    Info,
    /// 7 to 24 hours away.
    Warning,
    /// 1 to 6 hours away.
    Urgent,
    /// Due now or overdue.
    Active,
}

impl AlertLevel {
    /// The level that belongs to a number of whole hours until the next cleaning.
    pub open spec fn level_for(hours: int) -> AlertLevel {
        if hours <= 0 {
            AlertLevel::Active
        } else if hours <= 6 {
            AlertLevel::Urgent
        } else if hours <= 24 {
            AlertLevel::Warning
        } else {
            AlertLevel::Info
        }
    }

    /// The level that belongs to a number of whole hours until the next
    /// cleaning.
    pub fn from_hours_until(hours: i64) -> (level: AlertLevel)
        ensures
            level == Self::level_for(hours as int),
    {
        if hours <= 0 {
            AlertLevel::Active
        } else if hours <= 6 {
            AlertLevel::Urgent
        } else if hours <= 24 {
            AlertLevel::Warning
        } else {
            AlertLevel::Info
        }
    }
}

/// The answer to the question whether an address has a schedule.
#[derive(Debug)]
pub struct AddressCheckResponse {
    pub found: bool,
    pub address: String,
    /// Predicted time of the next cleaning, in seconds since the epoch.
    pub next_cleaning: Option<i64>,
    /// Whole hours until the next cleaning.
    pub hours_until: Option<i64>,
    pub alert_level: Option<AlertLevel>,
    /// How often the address is cleaned, in words.
    pub frequency: Option<String>,
    /// Confidence of the schedule in millionths.
    pub confidence: Option<u32>,
}

/// The report that the server is up.
#[derive(Debug)]
pub struct HealthResponse {
    pub status: String,
    /// Time of the report, in seconds since the epoch.
    pub timestamp: i64,
    /// Time of the last update of the schedules, in seconds since the epoch.
    pub last_update: Option<i64>,
    /// Number of schedules held.
    pub data_points: usize,
    pub version: String,
}

} // verus!
