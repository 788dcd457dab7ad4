//! The typed constructors: each takes one value and returns the fragment
//! that stands for it in SQL text.

use vstd::prelude::*;
use vstd::string::StrSliceExecFns;
use vstd::string::StringExecFns;
use chrono::NaiveDateTime;
use crate::decimal::{decimal, decimal_nat, write_unsigned};
use crate::fragment::Fragment;
use crate::sql::SQL;
use crate::timestamp::{canonical_text, date_time_text};

verus! {

/// The reason recorded for a value of `actual` characters where at most
/// `max` are allowed.
pub open spec fn varchar_reason(actual: nat, max: nat) -> Seq<char> {
    "varchar too long: "@ + decimal_nat(actual) + " vs "@ + decimal_nat(max)
}

/// How a boolean is spelled.
pub open spec fn boolean_text(value: bool) -> Seq<char> {
    if value {
        "TRUE"@
    } else {
        "FALSE"@
    }
}

impl Fragment {
    /// A string value of at most `max` characters: its literal where it
    /// fits, else an injected failure and no literal.
    pub open spec fn varchar(value: Seq<char>, max: nat) -> Fragment {
        if value.len() > max {
            Fragment::empty().fail(varchar_reason(value.len(), max))
        } else {
            Fragment::empty().escape_string(value)
        }
    }
}

/// Room for twice `len` bytes, as far as a string can be that long.
fn doubled(len: usize) -> (capacity: usize)
    ensures
        capacity == doubled_room(len as nat),
        capacity <= isize::MAX,
{
    if len <= 0x3fff_ffff {
        len * 2
    } else {
        0x7fff_ffff
    }
}

/// The room set aside for a value of `len` bytes: twice `len`, so that a
/// value whose every character is escaped still fits, and never more than
/// `0x7fff_ffff` bytes, the most that every machine lets a string hold.
pub open spec fn doubled_room(len: nat) -> nat {
    if len <= 0x3fff_ffff {
        2 * len
    } else {
        0x7fff_ffff
    }
}

impl SQL {
    /// A text value of any length, as a string literal.
    pub fn text(value: &str) -> (result: SQL)
        ensures
            result@ == Fragment::empty().escape_string(value@),
    {
        let mut result = SQL::new(doubled(value.len()));
        result.escape_string(value);
        result
    }

    /// A text value of at most `max` characters, as a string literal. A
    /// longer value is not escaped; it fails with the two lengths.
    pub fn varchar(value: &String, max: usize) -> (result: SQL)
        ensures
            result@ == Fragment::varchar(value@, max as nat),
    {
        let size = value.as_str().unicode_len();
        let mut result = SQL::new(doubled(size));
        if size > max {
            let mut reason = String::from_str("varchar too long: ");
            write_unsigned(&mut reason, size as u64);
            reason.append(" vs ");
            write_unsigned(&mut reason, max as u64);
            result.fail(reason.as_str());
        } else {
            result.escape_string(value.as_str());
        }
        result
    }

    /// SQL text that the caller vouches for: it is taken as it is.
    pub fn sql(value: &str) -> (result: SQL)
        ensures
            result@ == Fragment::of_text(value@),
    {
        let mut result = SQL::new(doubled(value.len()));
        result.write_is_safe_as_is(value);
        assert(Seq::<char>::empty() + value@ == value@);
        result
    }

    /// A 16-bit integer, in decimal.
    pub fn smallint(value: i16) -> (result: SQL)
        ensures
            result@ == Fragment::of_text(decimal(value as int)),
    {
        SQL::number(value as i64, 7)
    }

    /// A 32-bit integer, in decimal.
    pub fn int4(value: i32) -> (result: SQL)
        ensures
            result@ == Fragment::of_text(decimal(value as int)),
    {
        SQL::number(value as i64, 12)
    }

    /// A 32-bit integer, in decimal.
    pub fn integer(value: i32) -> (result: SQL)
        ensures
            result@ == Fragment::of_text(decimal(value as int)),
    {
        SQL::number(value as i64, 12)
    }

    /// A 64-bit integer, in decimal.
    pub fn bigint(value: i64) -> (result: SQL)
        ensures
            result@ == Fragment::of_text(decimal(value as int)),
    {
        SQL::number(value, 24)
    }

    /// `TRUE` or `FALSE`.
    pub fn boolean(value: bool) -> (result: SQL)
        ensures
            result@ == Fragment::of_text(boolean_text(value)),
    {
        let mut result = SQL::new(7);
        result.write_is_safe_as_is(
            if value {
                "TRUE"
            } else {
                "FALSE"
            },
        );
        assert(Seq::<char>::empty() + boolean_text(value) == boolean_text(value));
        result
    }

    /// The name of a table, column or schema: as it is where that is safe,
    /// else in double quotes.
    pub fn identifier(value: &str) -> (result: SQL)
        ensures
            result@ == Fragment::empty().escape_identifier(value@),
    {
        let mut result = SQL::new(doubled(value.len()));
        result.escape_identifier(value);
        result
    }

    /// A timestamp, as the string literal of its canonical text.
    pub fn naive_date_time(value: &NaiveDateTime) -> (result: SQL)
        ensures
            result@ == Fragment::empty().escape_string(date_time_text(*value)),
    {
        let mut result = SQL::new(30);
        let shown = canonical_text(value);
        result.escape_string(shown.as_str());
        result
    }
}

} // verus!
