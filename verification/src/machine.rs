//! What the library takes from the machine it runs on: random identifiers and the time.

use vstd::prelude::*;
use crate::text::concat;

verus! {

/// A lower case hexadecimal digit.
pub open spec fn is_hex(c: char) -> bool {
    ('0' <= c && c <= '9') || ('a' <= c && c <= 'f')
}

/// Where a UUID in text form has its hyphens.
pub open spec fn is_hyphen_place(i: int) -> bool {
    i == 8 || i == 13 || i == 18 || i == 23
}

/// The text form of a UUID: groups of hexadecimal digits with hyphens between them.
pub open spec fn is_uuid(s: Seq<char>) -> bool {
    &&& s.len() == 36
    &&& forall|i: int|
        0 <= i < 36 ==> if is_hyphen_place(i) {
            #[trigger] s[i] == '-'
        } else {
            is_hex(s[i])
        }
}

/// The first twelve digits of a UUID.
pub open spec fn short_id_of(uuid: Seq<char>) -> Seq<char> {
    uuid.subrange(0, 8) + uuid.subrange(9, 13)
}

/// A short identifier: twelve hexadecimal digits.
pub open spec fn is_short_id(s: Seq<char>) -> bool {
    s.len() == 12 && forall|i: int| 0 <= i < 12 ==> is_hex(#[trigger] s[i])
}

/// The identifier of a call that came without one.
pub open spec fn is_call_id(s: Seq<char>) -> bool {
    exists|uuid: Seq<char>| is_uuid(uuid) && s == #[trigger] ("call_"@ + uuid)
}

/// `uuid::Uuid::new_v4` and its `Display`: a random UUID in lower case with hyphens. Which one
/// is left open: it is random.
#[verifier::external_body]
fn random_uuid() -> (r: String)
    ensures
        is_uuid(r@),
{
    uuid::Uuid::new_v4().to_string()
}

/// `chrono::Utc::now` and `DateTime::timestamp`: the seconds since the Unix epoch, never
/// negative. Which time it is is left open.
#[verifier::external_body]
fn seconds_since_epoch() -> (r: i64)
    ensures
        r >= 0,
{
    chrono::Utc::now().timestamp()
}

/// The first twelve digits of a UUID.
pub fn shorten(uuid: &str) -> (r: String)
    requires
        is_uuid(uuid@),
    ensures
        r@ == short_id_of(uuid@),
        is_short_id(r@),
{
    let chars = crate::text::chars_of(uuid);
    let head = crate::text::string_of(&chars, 0, 8);
    let tail = crate::text::string_of(&chars, 9, 13);
    let short = concat(head.as_str(), tail.as_str());
    proof {
        let s = short@;
        assert(s == short_id_of(uuid@));
        assert forall|i: int| 0 <= i < 12 implies is_hex(#[trigger] s[i]) by {
            if i < 8 {
                assert(s[i] == uuid@[i]);
            } else {
                assert(s[i] == uuid@[i + 1]);
            }
        }
    }
    short
}

/// A random short identifier.
pub fn fresh_short_id() -> (r: String)
    ensures
        is_short_id(r@),
{
    shorten(random_uuid().as_str())
}

/// A random identifier for a call.
pub fn fresh_call_id() -> (r: String)
    ensures
        is_call_id(r@),
{
    let uuid = random_uuid();
    concat("call_", uuid.as_str())
}

/// The time in whole seconds since the Unix epoch.
pub fn unix_time() -> (r: u64)
    ensures
        r <= i64::MAX,
{
    seconds_since_epoch() as u64
}

} // verus!
