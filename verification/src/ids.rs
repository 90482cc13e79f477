//! Fresh identifiers and the wall clock: the two inputs that differ from
//! one call to the next.

use vstd::prelude::*;

verus! {

/// A lowercase hexadecimal digit.
pub open spec fn is_lower_hex(c: char) -> bool {
    ('0' <= c && c <= '9') || ('a' <= c && c <= 'f')
}

/// The hyphenated text of a version-4 UUID: 36 characters, hyphens at
/// 8, 13, 18 and 23, the version digit `4` at 14, lowercase hex elsewhere.
pub open spec fn hyphenated_v4(s: Seq<char>) -> bool {
    &&& s.len() == 36
    &&& s[14] == '4'
    &&& forall|i: int|
        0 <= i < 36 ==> (if i == 8 || i == 13 || i == 18 || i == 23 {
            s[i] == '-'
        } else {
            is_lower_hex(#[trigger] s[i])
        })
}

/// A fresh random identifier: `uuid::Uuid::new_v4`, written as its
/// `Display` text, which is the lowercase hyphenated form. Which value
/// comes out is left open; only its form is stated.
#[verifier::external_body]
pub(crate) fn fresh_uuid() -> (r: String)
    ensures
        hyphenated_v4(r@),
{
    uuid::Uuid::new_v4().to_string()
}

/// Milliseconds since the Unix epoch by the system clock
/// (`SystemTime::now`), or 0 where the clock is before the epoch. Nothing
/// is stated of the value.
#[verifier::external_body]
pub(crate) fn now_millis() -> (r: u64) {
    match std::time::SystemTime::now().duration_since(std::time::UNIX_EPOCH) {
        Ok(d) => d.as_millis() as u64,
        Err(_) => 0,
    }
}


/// Seconds since the Unix epoch by the system clock (`SystemTime::now`),
/// or 0 where the clock is before the epoch. Nothing is stated of the
/// value.
#[verifier::external_body]
pub(crate) fn now_secs() -> (r: u64) {
    match std::time::SystemTime::now().duration_since(std::time::UNIX_EPOCH) {
        Ok(d) => d.as_secs(),
        Err(_) => 0,
    }
}

} // verus!
