//! Address and zone records as the correlation engine takes them.

use crate::decimal::DecimalNumber;
use crate::geometry::{Point, COORD_LIMIT};
use crate::text::{parse_u16, parse_u8, parsed_u16, parsed_u8, same_text};
use vstd::string::StringExecFns;
use vstd::prelude::*;

verus! {

/// The point whose coordinates are the given numbers of metres, to the
/// nearest centimetre, or `None` if it lies outside the supported range.
pub open spec fn point_at(x: DecimalNumber, y: DecimalNumber) -> Option<Point> {
    if -COORD_LIMIT <= x.hundredths() <= COORD_LIMIT && -COORD_LIMIT <= y.hundredths()
        <= COORD_LIMIT {
        Some(Point { x: x.hundredths() as i64, y: y.hundredths() as i64 })
    } else {
        None
    }
}

/// The point whose coordinates are the given numbers of metres. A record
/// whose position has no point is left out of a search.
pub fn point_from_metres(x: &DecimalNumber, y: &DecimalNumber) -> (p: Option<Point>)
    requires
        x.well_formed(),
        y.well_formed(),
    ensures
        p == point_at(*x, *y),
        p matches Some(point) ==> point.in_range(),
{
    let east: i128 = x.to_hundredths();
    let north: i128 = y.to_hundredths();
    if -(COORD_LIMIT as i128) <= east && east <= COORD_LIMIT as i128 && -(COORD_LIMIT as i128)
        <= north && north <= COORD_LIMIT as i128 {
        Some(Point { x: east as i64, y: north as i64 })
    } else {
        None
    }
}

/// A street address with its position in the plane.
#[derive(Debug, Clone)]
pub struct AdressClean {
    /// Position of the address.
    pub coordinates: Point,
    /// Postal code.
    pub postnummer: u16,
    /// The full address as free text.
    pub adress: String,
    /// Street name.
    pub gata: String,
    /// House number.
    pub gatunummer: String,
}

/// A restriction zone, reduced to the segment between the first and the last
/// vertex of its boundary.
#[derive(Debug, Clone)]
pub struct MiljoeDataClean {
    /// The two boundary points: first and last vertex of the boundary ring.
    pub coordinates: [Point; 2],
    /// Name or description of the zone.
    pub info: String,
    /// Time window in which the restriction applies.
    pub tid: String,
    /// Code of the day on which the restriction applies.
    pub dag: u8,
}

impl MiljoeDataClean {
    /// First boundary point.
    pub open spec fn start(self) -> Point {
        self.coordinates[0]
    }

    /// Second boundary point.
    pub open spec fn end(self) -> Point {
        self.coordinates[1]
    }

    /// Both boundary points lie within the supported coordinate range. A zone
    /// that is not usable is passed over by every search.
    pub open spec fn usable(self) -> bool {
        self.start().in_range() && self.end().in_range()
    }

    /// Tells whether both boundary points lie within the supported range.
    pub fn is_usable(&self) -> (ok: bool)
        ensures
            ok == self.usable(),
    {
        self.coordinates[0].is_in_range() && self.coordinates[1].is_in_range()
    }
}

/// One attribute of a source record: its name and its value, which is a
/// text or something else.
pub struct Attribute {
    pub name: String,
    /// The value if it is a text, `None` if it is anything else.
    pub text: Option<String>,
}

/// `at` is the position of the first attribute of the name `name`.
pub open spec fn is_attribute(attributes: Seq<Attribute>, name: Seq<char>, at: int) -> bool {
    &&& 0 <= at < attributes.len()
    &&& attributes[at].name@ == name
    &&& forall|j: int| 0 <= j < at ==> (#[trigger] attributes[j]).name@ != name
}

/// No attribute has the name `name`.
pub open spec fn lacks_attribute(attributes: Seq<Attribute>, name: Seq<char>) -> bool {
    forall|j: int| 0 <= j < attributes.len() ==> (#[trigger] attributes[j]).name@ != name
}

/// `found` is what a source record says under the first of the names
/// `first`, `second` and `third` that it has an attribute of: the text of
/// that attribute, or nothing if its value is no text or the record has none
/// of the three.
pub open spec fn is_text_under(
    found: Option<&str>,
    attributes: Seq<Attribute>,
    first: Seq<char>,
    second: Seq<char>,
    third: Seq<char>,
) -> bool {
    ||| (exists|name: Seq<char>, at: int|
        {
            &&& is_first_name(attributes, first, second, third, name)
            &&& #[trigger] is_attribute(attributes, name, at)
            &&& match found {
                Some(text) => attributes[at].text matches Some(held) && held@ == text@,
                None => attributes[at].text is None,
            }
        })
    ||| {
        &&& found is None
        &&& lacks_attribute(attributes, first)
        &&& lacks_attribute(attributes, second)
        &&& lacks_attribute(attributes, third)
    }
}

/// `name` is the first of the three names that the record has an attribute
/// of.
pub open spec fn is_first_name(
    attributes: Seq<Attribute>,
    first: Seq<char>,
    second: Seq<char>,
    third: Seq<char>,
    name: Seq<char>,
) -> bool {
    ||| name == first
    ||| (name == second && lacks_attribute(attributes, first))
    ||| (name == third && lacks_attribute(attributes, first) && lacks_attribute(
        attributes,
        second,
    ))
}

/// The position of the first attribute of a name, if there is one.
fn attribute_at(attributes: &[Attribute], name: &str) -> (found: Option<usize>)
    ensures
        match found {
            Some(at) => is_attribute(attributes@, name@, at as int),
            None => lacks_attribute(attributes@, name@),
        },
{
    let mut i: usize = 0;
    while i < attributes.len()
        invariant
            i <= attributes@.len(),
            forall|j: int| 0 <= j < i ==> (#[trigger] attributes@[j]).name@ != name@,
        decreases attributes.len() - i,
    {
        if same_text(attributes[i].name.as_str(), name) {
            return Some(i);
        }
        i = i + 1;
    }
    None
}

/// What a source record says under the first of three names that it has
/// an attribute of, if that is a text.
pub fn text_under<'a>(attributes: &'a [Attribute], first: &str, second: &str, third: &str) -> (found:
    Option<&'a str>)
    ensures
        is_text_under(found, attributes@, first@, second@, third@),
{
    let at: usize = match attribute_at(attributes, first) {
        Some(at) => {
            assert(is_first_name(attributes@, first@, second@, third@, first@));
            at
        },
        None => match attribute_at(attributes, second) {
            Some(at) => {
                assert(is_first_name(attributes@, first@, second@, third@, second@));
                at
            },
            None => match attribute_at(attributes, third) {
                Some(at) => {
                    assert(is_first_name(attributes@, first@, second@, third@, third@));
                    at
                },
                None => {
                    return None;
                },
            },
        },
    };
    match &attributes[at].text {
        Some(held) => Some(held.as_str()),
        None => None,
    }
}

/// `made` is the address record that the fields of a source record give:
/// none if the position has no point or the postal code is no number, else
/// the record with that point and number and the texts as they are.
pub open spec fn is_address_from(
    made: Option<AdressClean>,
    x: DecimalNumber,
    y: DecimalNumber,
    postal_code: Seq<char>,
    full_address: Seq<char>,
    street: Seq<char>,
    number: Seq<char>,
) -> bool {
    match (point_at(x, y), parsed_u16(postal_code)) {
        (Some(point), Some(code)) => {
            &&& made matches Some(record)
            &&& record.coordinates == point
            &&& record.postnummer == code
            &&& record.adress@ == full_address
            &&& record.gata@ == street
            &&& record.gatunummer@ == number
        },
        _ => made is None,
    }
}

/// `made` is the zone record that the fields of a source record give: none
/// if a boundary point has no point or the day code is no number, else the
/// record with those points and that code and the texts as they are.
pub open spec fn is_zone_from(
    made: Option<MiljoeDataClean>,
    first: (DecimalNumber, DecimalNumber),
    last: (DecimalNumber, DecimalNumber),
    info: Seq<char>,
    time: Seq<char>,
    day: Seq<char>,
) -> bool {
    match (point_at(first.0, first.1), point_at(last.0, last.1), parsed_u8(day)) {
        (Some(start), Some(end), Some(code)) => {
            &&& made matches Some(record)
            &&& record.start() == start
            &&& record.end() == end
            &&& record.info@ == info
            &&& record.tid@ == time
            &&& record.dag == code
        },
        _ => made is None,
    }
}

impl AdressClean {
    /// The address record that the fields of a source record give, with the
    /// position in metres. A record with a field that cannot be used gives
    /// none and is left out.
    pub fn from_fields(
        x: &DecimalNumber,
        y: &DecimalNumber,
        postal_code: &str,
        full_address: &str,
        street: &str,
        number: &str,
    ) -> (made: Option<Self>)
        requires
            x.well_formed(),
            y.well_formed(),
        ensures
            is_address_from(made, *x, *y, postal_code@, full_address@, street@, number@),
    {
        let coordinates: Point = match point_from_metres(x, y) {
            Some(point) => point,
            None => {
                return None;
            },
        };
        let postnummer: u16 = match parse_u16(postal_code) {
            Some(code) => code,
            None => {
                return None;
            },
        };
        Some(
            AdressClean {
                coordinates,
                postnummer,
                adress: String::from_str(full_address),
                gata: String::from_str(street),
                gatunummer: String::from_str(number),
            },
        )
    }
}

impl MiljoeDataClean {
    /// The zone record that the fields of a source record give, with the
    /// first and the last vertex of the boundary in metres. A record with a
    /// field that cannot be used gives none and is left out.
    pub fn from_fields(
        first: (&DecimalNumber, &DecimalNumber),
        last: (&DecimalNumber, &DecimalNumber),
        info: &str,
        time: &str,
        day: &str,
    ) -> (made: Option<Self>)
        requires
            first.0.well_formed(),
            first.1.well_formed(),
            last.0.well_formed(),
            last.1.well_formed(),
        ensures
            is_zone_from(made, (*first.0, *first.1), (*last.0, *last.1), info@, time@, day@),
    {
        let start: Point = match point_from_metres(first.0, first.1) {
            Some(point) => point,
            None => {
                return None;
            },
        };
        let end: Point = match point_from_metres(last.0, last.1) {
            Some(point) => point,
            None => {
                return None;
            },
        };
        let dag: u8 = match parse_u8(day) {
            Some(code) => code,
            None => {
                return None;
            },
        };
        Some(
            MiljoeDataClean {
                coordinates: [start, end],
                info: String::from_str(info),
                tid: String::from_str(time),
                dag,
            },
        )
    }
}

} // verus!
