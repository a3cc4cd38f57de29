//! What a geocoding service says of a position, put into one line.

use vstd::prelude::*;
use vstd::string::StringExecFns;

verus! {

/// The texts joined into one, with a comma and a blank between each two.
pub open spec fn joined(parts: Seq<Seq<char>>) -> Seq<char>
    decreases parts.len(),
{
    if parts.len() == 0 {
        Seq::empty()
    } else if parts.len() == 1 {
        parts[0]
    } else {
        joined(parts.drop_last()) + ", "@ + parts.last()
    }
}

/// `parts` with `part` behind them, if there is one.
pub open spec fn with_part(parts: Seq<Seq<char>>, part: Option<&str>) -> Seq<Seq<char>> {
    match part {
        Some(text) => parts.push(text@),
        None => parts,
    }
}

/// The parts of an address that are known, in the order house number, road,
/// postal code, city.
pub open spec fn known_parts(
    house_number: Option<&str>,
    road: Option<&str>,
    postcode: Option<&str>,
    city: Option<&str>,
) -> Seq<Seq<char>> {
    with_part(with_part(with_part(with_part(Seq::empty(), house_number), road), postcode), city)
}

/// The views of the texts.
pub open spec fn views_of(parts: Seq<&str>) -> Seq<Seq<char>> {
    Seq::new(parts.len(), |i: int| parts[i]@)
}

/// Puts a part behind the others, if there is one.
fn push_part<'a>(parts: &mut Vec<&'a str>, part: Option<&'a str>)
    ensures
        views_of(final(parts)@) == with_part(views_of(old(parts)@), part),
{
    match part {
        Some(text) => {
            parts.push(text);
            assert(views_of(final(parts)@) =~= with_part(views_of(old(parts)@), part));
        },
        None => {},
    }
}

/// The address in one line: house number, road, postal code and city, as
/// far as they are known, separated by a comma and a blank.
pub fn full_address(
    house_number: Option<&str>,
    road: Option<&str>,
    postcode: Option<&str>,
    city: Option<&str>,
) -> (line: String)
    ensures
        line@ == joined(known_parts(house_number, road, postcode, city)),
{
    let mut parts: Vec<&str> = Vec::new();
    assert(views_of(parts@) =~= Seq::empty());
    push_part(&mut parts, house_number);
    push_part(&mut parts, road);
    push_part(&mut parts, postcode);
    push_part(&mut parts, city);
    let ghost texts = views_of(parts@);
    let mut line: String = String::new();
    let mut i: usize = 0;
    while i < parts.len()
        invariant
            i <= parts@.len(),
            texts == views_of(parts@),
            line@ == joined(texts.take(i as int)),
        decreases parts.len() - i,
    {
        proof {
            let longer = texts.take(i + 1);
            assert(longer.drop_last() =~= texts.take(i as int));
            assert(longer.last() == parts@[i as int]@);
        }
        if i > 0 {
            line.append(", ");
        }
        line.append(parts[i]);
        proof {
            if i == 0 {
                assert(texts.take(1)[0] == parts@[0]@);
                assert(line@ =~= parts@[0]@);
            }
        }
        i = i + 1;
    }
    assert(texts.take(texts.len() as int) =~= texts);
    line
}

} // verus!
