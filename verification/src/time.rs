//! Instants carried as their textual rendering.
//!
//! The state-file protocol stores a task's timestamp as text, and nothing in
//! the protocol computes with it, so the library carries an instant as the
//! bytes of its rendering and leaves producing and interpreting those bytes
//! to the time library.

use vstd::prelude::*;

verus! {

/// Whether a byte string is a parseable instant: UTF-8 text holding an
/// RFC 3339 / ISO 8601 timestamp, exactly as the time library accepts it.
pub uninterp spec fn is_timestamp(b: Seq<u8>) -> bool;

/// Relies on jiff::Timestamp::from_str: tells whether the bytes parse as an
/// instant. The result depends on the bytes alone.
#[verifier::external_body]
pub(crate) fn timestamp_valid(b: &[u8]) -> (r: bool)
    ensures
        r == is_timestamp(b@),
{
    match core::str::from_utf8(b) {
        Ok(s) => s.parse::<jiff::Timestamp>().is_ok(),
        Err(_) => false,
    }
}

/// Relies on jiff::Timestamp::now and its Display: the current instant
/// rendered as an RFC 3339 string in UTC ("Zulu" form), which the parser
/// accepts back, is never empty, and holds only the date-time alphabet —
/// in particular no comma, newline or carriage return. The call panics on
/// a system clock outside the year range jiff carries (around ±9999);
/// that is machine state, which no precondition can exclude.
#[verifier::external_body]
pub(crate) fn now_timestamp() -> (r: Vec<u8>)
    ensures
        is_timestamp(r@),
        r@.len() > 0,
        forall|i: int| 0 <= i < r@.len() ==> r@[i] != 44 && r@[i] != 10 && r@[i] != 13,
{
    jiff::Timestamp::now().to_string().into_bytes()
}

/// Relies on jiff: the instant re-rendered in the system time zone for
/// display. The system time zone is machine state, so nothing more is said
/// of the successful outcome; bytes that are no timestamp render empty.
#[verifier::external_body]
pub(crate) fn format_local(b: &[u8]) -> (r: String)
    ensures
        !is_timestamp(b@) ==> r@.len() == 0,
{
    let parsed = match core::str::from_utf8(b) {
        Ok(s) => s.parse::<jiff::Timestamp>(),
        Err(_) => return String::new(),
    };
    match parsed {
        Ok(t) => {
            let zoned = t.to_zoned(jiff::tz::TimeZone::system());
            format!("{}", zoned.strftime("%a %b %e %I:%M:%S %p"))
        },
        Err(_) => String::new(),
    }
}

} // verus!
