//! Timestamps of the chrono crate, shown in their canonical text.

use vstd::prelude::*;
use chrono::NaiveDateTime;

verus! {

/// A date and time without a time zone, as the chrono crate holds it.
#[verifier::external_type_specification]
#[verifier::external_body]
pub struct ExNaiveDateTime(chrono::NaiveDateTime);

/// The text that chrono's `Display` writes for a `NaiveDateTime`: the date,
/// a space, and the time of day.
pub uninterp spec fn date_time_text(value: NaiveDateTime) -> Seq<char>;

/// Calls `to_string` on the `NaiveDateTime`, which goes through chrono's
/// `Display` for it. The text depends on the value alone; it is the one that
/// `date_time_text` names, and nothing more is claimed of it.
#[verifier::external_body]
pub(crate) fn canonical_text(value: &NaiveDateTime) -> (text: String)
    ensures
        text@ == date_time_text(*value),
{
    value.to_string()
}

} // verus!
