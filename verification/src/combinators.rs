//! Fragments put together: joined lists, boolean clauses and `IN` lists.

use vstd::prelude::*;
use crate::constructors::boolean_text;
use crate::fragment::Fragment;
use crate::sql::{fragments, SQL};

verus! {

impl Fragment {
    /// `items` with `delimit` between two neighbours.
    pub open spec fn join(delimit: Fragment, items: Seq<Fragment>) -> Fragment {
        Fragment::empty().append_join(delimit, items)
    }

    /// A boolean expression over `items`: the literal `on_empty` where there
    /// is no item, else the items joined by `delimit`, in parentheses, with
    /// a newline after the opening and before the closing one.
    pub open spec fn clause(delimit: Fragment, items: Seq<Fragment>, on_empty: bool) -> Fragment {
        if items.len() == 0 {
            Fragment::of_text(boolean_text(on_empty))
        } else {
            Fragment::of_text("(\n"@).append_join(delimit, items).raw("\n)"@)
        }
    }

    /// The delimiter of a conjunction.
    pub open spec fn and_delimiter() -> Fragment {
        Fragment::of_text(" AND\n"@)
    }

    /// The delimiter of a disjunction.
    pub open spec fn or_delimiter() -> Fragment {
        Fragment::of_text(" OR\n"@)
    }

    /// `expr IN (items)`, the items joined by `", "`; the literal `on_empty`
    /// where there is no item.
    pub open spec fn in_list(expr: Fragment, items: Seq<Fragment>, on_empty: bool) -> Fragment {
        if items.len() == 0 {
            Fragment::of_text(boolean_text(on_empty))
        } else {
            Fragment::empty().push(expr).raw(" IN ("@).append_join(
                Fragment::of_text(", "@),
                items,
            ).raw(")"@)
        }
    }
}

impl SQL {
    /// `values` in order, with `delimit` between two neighbours.
    pub fn join(delimit: &SQL, values: &Vec<SQL>) -> (result: SQL)
        ensures
            result@ == Fragment::join(delimit@, fragments(values@)),
    {
        let result = SQL::new(100);
        result.append_join(delimit, values)
    }

    /// A boolean expression for a `WHERE` clause: `values` joined by
    /// `delimit`, in parentheses; `TRUE` or `FALSE`, as `on_empty` says,
    /// where there is no value.
    pub fn clause(delimit: &SQL, values: &Vec<SQL>, on_empty: bool) -> (result: SQL)
        ensures
            result@ == Fragment::clause(delimit@, fragments(values@), on_empty),
    {
        if values.len() == 0 {
            SQL::boolean(on_empty)
        } else {
            let mut result = SQL::sql("(\n");
            result = result.append_join(delimit, values);
            result.write_is_safe_as_is("\n)");
            result
        }
    }

    /// The conjunction of `values`.
    pub fn and(values: &Vec<SQL>, on_empty: bool) -> (result: SQL)
        ensures
            result@ == Fragment::clause(Fragment::and_delimiter(), fragments(values@), on_empty),
    {
        SQL::clause(&SQL::sql(" AND\n"), values, on_empty)
    }

    /// The disjunction of `values`.
    pub fn or(values: &Vec<SQL>, on_empty: bool) -> (result: SQL)
        ensures
            result@ == Fragment::clause(Fragment::or_delimiter(), fragments(values@), on_empty),
    {
        SQL::clause(&SQL::sql(" OR\n"), values, on_empty)
    }

    /// `expr IN (values)`; `TRUE` or `FALSE`, as `on_empty` says, where
    /// there is no value, since an empty list is no SQL.
    pub fn in_vec(expr: &SQL, values: &Vec<SQL>, on_empty: bool) -> (result: SQL)
        ensures
            result@ == Fragment::in_list(expr@, fragments(values@), on_empty),
    {
        if values.len() == 0 {
            SQL::boolean(on_empty)
        } else {
            let mut result = SQL::new(100);
            result = result.push_sql(expr);
            result.write_is_safe_as_is(" IN (");
            result = result.append_join(&SQL::sql(", "), values);
            result.write_is_safe_as_is(")");
            result
        }
    }
}

} // verus!
