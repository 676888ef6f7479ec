//! Timestamps rendered as text for the views.
use vstd::prelude::*;

verus! {

/// The formats the views render timestamps with.
pub open spec fn known_format(fmt: Seq<char>) -> bool {
    ||| fmt == "%I:%M:%S %p"@
    ||| fmt == "%m/%d"@
    ||| fmt == "%m/%d %I:%M %p"@
    ||| fmt == "%m/%d/%Y %I:%M:%S %p"@
}

/// The text chrono renders for the timestamp `secs` (seconds, read as a
/// UTC date and time) with the format `fmt`.
pub uninterp spec fn clock_text(secs: i64, fmt: Seq<char>) -> Seq<char>;

/// `chrono::DateTime::from_timestamp` followed by `naive_utc` and `format`
/// with one of the formats the views use: the result is named
/// `clock_text`; a timestamp out of chrono's range gives the empty text.
#[verifier::external_body]
pub(crate) fn format_timestamp(secs: i64, fmt: &str) -> (r: String)
    requires
        known_format(fmt@),
    ensures
        r@ == clock_text(secs, fmt@),
{
    match chrono::DateTime::from_timestamp(secs, 0) {
        Some(d) => d.naive_utc().format(fmt).to_string(),
        None => String::new(),
    }
}

} // verus!
