//! The list of addresses that have been marked by hand, by category.
//!
//! The list of a category lives in a file of its own; reading and writing
//! the file is left to the caller, who hands the entries over and takes them
//! back.

use crate::text::{decimal_number, push_number, same_text};
use vstd::prelude::*;
use vstd::string::StringExecFns;

verus! {

/// One marked address.
#[derive(Debug, Clone)]
pub struct ClassificationEntry {
    pub id: String,
    pub timestamp: String,
    pub address: String,
    pub postal_code: String,
    pub source: String,
    pub matches_html: String,
}

/// The request to mark an address.
#[derive(Debug)]
pub struct ClassificationRequest {
    pub category: String,
    pub data: ClassificationData,
    pub timestamp: String,
}

/// What a request says of the address.
#[derive(Debug)]
pub struct ClassificationData {
    pub address: String,
    pub postal_code: String,
    pub source: String,
    pub matches_html: String,
}

/// The answer to a request.
#[derive(Debug)]
pub struct ClassificationResponse {
    pub success: bool,
    pub message: String,
    pub id: Option<String>,
}

/// The category is one of the two that exist.
pub open spec fn valid_category(category: Seq<char>) -> bool {
    category == "notMatching"@ || category == "invalid"@
}

/// The name of the file that holds the list of a category.
pub open spec fn file_name(category: Seq<char>) -> Seq<char> {
    "amp_stadsatlas_"@ + category + ".json"@
}

/// The identifier of an entry: its category, the time of the request in
/// milliseconds and a token that tells entries of the same millisecond
/// apart, joined by hyphens.
pub open spec fn entry_id(category: Seq<char>, millis: int, token: Seq<char>) -> Seq<char> {
    category + "-"@ + decimal_number(millis) + "-"@ + token
}

/// The entry that a request gives under an identifier.
pub open spec fn is_entry_of(
    entry: ClassificationEntry,
    request: ClassificationRequest,
    id: Seq<char>,
) -> bool {
    &&& entry.id@ == id
    &&& entry.timestamp@ == request.timestamp@
    &&& entry.address@ == request.data.address@
    &&& entry.postal_code@ == request.data.postal_code@
    &&& entry.source@ == request.data.source@
    &&& entry.matches_html@ == request.data.matches_html@
}

/// `at` is the position of the last entry for `address`.
pub open spec fn is_last_match(
    entries: Seq<ClassificationEntry>,
    address: Seq<char>,
    at: int,
) -> bool {
    &&& 0 <= at < entries.len()
    &&& entries[at].address@ == address
    &&& forall|j: int| at < j < entries.len() ==> (#[trigger] entries[j]).address@ != address
}

/// No entry is for `address`.
pub open spec fn no_match(entries: Seq<ClassificationEntry>, address: Seq<char>) -> bool {
    forall|j: int| 0 <= j < entries.len() ==> (#[trigger] entries[j]).address@ != address
}

/// The message that refuses a category.
pub open spec fn invalid_category_message(category: Seq<char>) -> Seq<char> {
    "Invalid category: "@ + category
}

/// The message that reports an entry taken back.
pub open spec fn undone_message(address: Seq<char>, category: Seq<char>) -> Seq<char> {
    "Undid last classification for '"@ + address + "' in category '"@ + category + "'"@
}

/// The message that reports that there was no entry to take back.
pub open spec fn nothing_found_message(address: Seq<char>, category: Seq<char>) -> Seq<char> {
    "No classifications found for '"@ + address + "' in category '"@ + category + "'"@
}

/// Tells whether the category is one of the two that exist.
pub fn is_valid_category(category: &str) -> (valid: bool)
    ensures
        valid == valid_category(category@),
{
    same_text(category, "notMatching") || same_text(category, "invalid")
}

/// The name of the file that holds the list of a category.
pub fn get_classification_file(category: &str) -> (name: String)
    ensures
        name@ == file_name(category@),
{
    let mut name: String = String::from_str("amp_stadsatlas_");
    name.append(category);
    name.append(".json");
    name
}

/// The message that refuses a category.
fn invalid_category(category: &str) -> (message: String)
    ensures
        message@ == invalid_category_message(category@),
{
    let mut message: String = String::from_str("Invalid category: ");
    message.append(category);
    message
}

/// Adds the entry that a request gives to the list of its category and
/// returns the identifier of the entry; refuses a request whose category
/// does not exist.
pub fn add_classification(
    req: &ClassificationRequest,
    entries: &mut Vec<ClassificationEntry>,
    millis: i64,
    token: &str,
) -> (added: Result<String, String>)
    ensures
        match added {
            Ok(id) => {
                &&& valid_category(req.category@)
                &&& id@ == entry_id(req.category@, millis as int, token@)
                &&& final(entries)@.len() == old(entries)@.len() + 1
                &&& final(entries)@.drop_last() == old(entries)@
                &&& is_entry_of(final(entries)@.last(), *req, id@)
            },
            Err(message) => {
                &&& !valid_category(req.category@)
                &&& message@ == invalid_category_message(req.category@)
                &&& final(entries)@ == old(entries)@
            },
        },
{
    if !is_valid_category(req.category.as_str()) {
        return Err(invalid_category(req.category.as_str()));
    }
    let mut id: String = String::from_str(req.category.as_str());
    id.append("-");
    push_number(&mut id, millis);
    id.append("-");
    id.append(token);
    let entry: ClassificationEntry = ClassificationEntry {
        id: id.clone(),
        timestamp: req.timestamp.clone(),
        address: req.data.address.clone(),
        postal_code: req.data.postal_code.clone(),
        source: req.data.source.clone(),
        matches_html: req.data.matches_html.clone(),
    };
    entries.push(entry);
    assert(final(entries)@.drop_last() =~= old(entries)@);
    Ok(id)
}

/// Takes back the last entry for an address in the list of a category and
/// says so; refuses a category that does not exist, and reports it if the
/// list has no entry for the address.
pub fn undo_classification(
    category: &str,
    address: &str,
    entries: &mut Vec<ClassificationEntry>,
) -> (undone: Result<String, String>)
    ensures
        match undone {
            Ok(message) => {
                &&& valid_category(category@)
                &&& message@ == undone_message(address@, category@)
                &&& exists|at: int| #[trigger]
                    is_last_match(old(entries)@, address@, at) && final(entries)@ == old(
                        entries,
                    )@.remove(at)
            },
            Err(message) => {
                &&& final(entries)@ == old(entries)@
                &&& if valid_category(category@) {
                    no_match(old(entries)@, address@) && message@ == nothing_found_message(
                        address@,
                        category@,
                    )
                } else {
                    message@ == invalid_category_message(category@)
                }
            },
        },
{
    if !is_valid_category(category) {
        return Err(invalid_category(category));
    }
    let mut at: usize = entries.len();
    while at > 0
        invariant
            at <= entries@.len(),
            valid_category(category@),
            entries@ == old(entries)@,
            forall|j: int| at <= j < entries@.len() ==> (#[trigger] entries@[j]).address@ != address@,
        decreases at,
    {
        if same_text(entries[at - 1].address.as_str(), address) {
            let ghost before = entries@;
            entries.remove(at - 1);
            let mut message: String = String::from_str("Undid last classification for '");
            message.append(address);
            message.append("' in category '");
            message.append(category);
            message.append("'");
            assert(is_last_match(before, address@, at - 1));
            assert(entries@ == before.remove(at - 1));
            assert(message@ =~= undone_message(address@, category@));
            return Ok(message);
        }
        at = at - 1;
    }
    let mut message: String = String::from_str("No classifications found for '");
    message.append(address);
    message.append("' in category '");
    message.append(category);
    message.append("'");
    Err(message)
}

} // verus!
