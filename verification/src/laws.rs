//! What holds of every fragment, stated over the model and proved.

use vstd::prelude::*;
use crate::constructors::{boolean_text, varchar_reason};
use crate::escape::{
    has_nul, has_trigger, has_unplain, is_digit, is_plain, is_trigger, literal_body,
    literal_text, needs_quoting, quoted_body, quoted_text,
};
use crate::fragment::{
    comma_joined, interleaved, keeps, merge, note, note_all, poison_marker, reason_separator,
    reasons_of, Fragment,
};
use crate::grammar::{
    lemma_cut_escape_first, lemma_cut_lone_brace, lemma_cut_placeholder_first,
    lemma_cut_plain_first, pieces_from, placeholder_at, span_plain, template_pieces,
};
use crate::template::{
    all_bound, filled, is_brace_escape, is_placeholder, lookup, missing_notice, missing_reason,
    part_fits, part_replaced, piece_text, placeholder_name, replaced, written,
    Part,
};

verus! {

/// Recording a reason keeps what was recorded before, in front.
pub proof fn lemma_note_keeps(failure: Option<Seq<char>>, reason: Seq<char>)
    ensures
        note(failure, reason) is Some,
        keeps(failure, note(failure, reason)),
{
}

/// `keeps` is reflexive and transitive.
pub proof fn lemma_keeps_chain(
    a: Option<Seq<char>>,
    b: Option<Seq<char>>,
    c: Option<Seq<char>>,
)
    ensures
        keeps(a, a),
        keeps(a, b) && keeps(b, c) ==> keeps(a, c),
{
}

/// Reasons recorded one after the other make up the failure message: the
/// reasons in the order met, joined by `", "`.
pub proof fn lemma_note_all_joined(reasons: Seq<Seq<char>>)
    requires
        reasons.len() > 0,
    ensures
        note_all(None, reasons) == Some(comma_joined(reasons)),
    decreases reasons.len(),
{
    if reasons.len() == 1 {
        reveal_with_fuel(note_all, 2);
        assert(reasons.drop_last().len() == 0);
        assert(reasons.last() == reasons[0]);
    } else {
        lemma_note_all_joined(reasons.drop_last());
    }
}

/// Reasons recorded after an earlier failure follow it in the message.
pub proof fn lemma_note_all_after(earlier: Seq<char>, reasons: Seq<Seq<char>>)
    ensures
        note_all(Some(earlier), reasons) == Some(comma_joined(seq![earlier] + reasons)),
        keeps(Some(earlier), note_all(Some(earlier), reasons)),
    decreases reasons.len(),
{
    if reasons.len() == 0 {
        assert(seq![earlier] + reasons == seq![earlier]);
    } else {
        lemma_note_all_after(earlier, reasons.drop_last());
        assert((seq![earlier] + reasons).drop_last() == seq![earlier] + reasons.drop_last());
        assert((seq![earlier] + reasons).last() == reasons.last());
    }
}

/// Appending a fragment records its failure after those recorded before;
/// the result failed if and only if one of the two did.
pub proof fn lemma_push_merges_failures(start: Fragment, other: Fragment)
    ensures
        start.push(other).failure == merge(start.failure, other.failure),
        start.push(other).failed() <==> start.failed() || other.failed(),
        keeps(start.failure, start.push(other).failure),
{
}

/// Merging failures is associative, and the absent failure is neutral: the
/// message depends on the order in which the reasons were met, not on how
/// the fragments were grouped.
pub proof fn lemma_merge_associative(
    a: Option<Seq<char>>,
    b: Option<Seq<char>>,
    c: Option<Seq<char>>,
)
    ensures
        merge(merge(a, b), c) == merge(a, merge(b, c)),
        merge(None, a) == a,
        merge(a, None) == a,
{
    if a is Some && b is Some && c is Some {
        assert(a->0 + reason_separator() + b->0 + reason_separator() + c->0 == a->0
            + reason_separator() + (b->0 + reason_separator() + c->0));
    }
}

/// Fragments appended one after the other report every failure among them,
/// in the order met, after what was recorded before.
pub proof fn lemma_push_all_reports(start: Fragment, items: Seq<Fragment>)
    ensures
        start.push_all(items).failure == note_all(start.failure, reasons_of(items)),
        keeps(start.failure, start.push_all(items).failure),
        !start.failed() && reasons_of(items).len() > 0 ==> start.push_all(items).failure == Some(
            comma_joined(reasons_of(items)),
        ),
        !start.failed() && reasons_of(items).len() == 0 ==> !start.push_all(items).failed(),
    decreases items.len(),
{
    if items.len() > 0 {
        lemma_push_all_reports(start, items.drop_last());
        if items.last().failure is Some {
            assert(reasons_of(items).drop_last() == reasons_of(items.drop_last()));
        }
    }
    if !start.failed() && reasons_of(items).len() > 0 {
        lemma_note_all_joined(reasons_of(items));
    }
}

/// Joining is appending the items with the delimiter between them.
pub proof fn lemma_append_join_pushes(start: Fragment, delimit: Fragment, items: Seq<Fragment>)
    ensures
        start.append_join(delimit, items) == start.push_all(interleaved(delimit, items)),
    decreases items.len(),
{
    if items.len() == 0 {
    } else if items.len() == 1 {
        reveal_with_fuel(Fragment::push_all, 2);
        assert(seq![items[0]].drop_last() == Seq::<Fragment>::empty());
    } else {
        lemma_append_join_pushes(start, delimit, items.drop_last());
        let shorter = interleaved(delimit, items.drop_last());
        let longer = interleaved(delimit, items);
        let middle = shorter.push(delimit);
        assert(longer == middle.push(items.last()));
        assert(longer.drop_last() == middle);
        assert(longer.last() == items.last());
        assert(middle.drop_last() == shorter);
        assert(middle.last() == delimit);
        assert(start.push_all(middle) == start.push_all(shorter).push(delimit));
        assert(start.push_all(longer) == start.push_all(middle).push(items.last()));
    }
}

/// A joined list reports every failure among its items and delimiters, in
/// the order met; a failure recorded before the join stays in front.
pub proof fn lemma_append_join_reports(start: Fragment, delimit: Fragment, items: Seq<Fragment>)
    ensures
        start.append_join(delimit, items).failure == note_all(
            start.failure,
            reasons_of(interleaved(delimit, items)),
        ),
        keeps(start.failure, start.append_join(delimit, items).failure),
{
    lemma_append_join_pushes(start, delimit, items);
    lemma_push_all_reports(start, interleaved(delimit, items));
}

/// One failed item makes the joined list fail, wherever it stands.
pub proof fn lemma_append_join_surfaces(
    start: Fragment,
    delimit: Fragment,
    items: Seq<Fragment>,
    i: int,
)
    requires
        0 <= i < items.len(),
        items[i].failed(),
    ensures
        start.append_join(delimit, items).failed(),
    decreases items.len(),
{
    if i < items.len() - 1 {
        assert(items.drop_last()[i] == items[i]);
        lemma_append_join_surfaces(start, delimit, items.drop_last(), i);
    }
}

/// One failed item makes a clause and an `IN` list fail, and so does a
/// failed expression in front of a list that is not empty.
pub proof fn lemma_combination_surfaces(
    delimit: Fragment,
    expr: Fragment,
    items: Seq<Fragment>,
    on_empty: bool,
    i: int,
)
    requires
        0 <= i < items.len(),
        items[i].failed() || expr.failed(),
    ensures
        items[i].failed() ==> Fragment::join(delimit, items).failed(),
        items[i].failed() ==> Fragment::clause(delimit, items, on_empty).failed(),
        Fragment::in_list(expr, items, on_empty).failed(),
{
    if items[i].failed() {
        lemma_append_join_surfaces(Fragment::empty(), delimit, items, i);
        lemma_append_join_surfaces(Fragment::of_text("(\n"@), delimit, items, i);
        lemma_append_join_surfaces(
            Fragment::empty().push(expr).raw(" IN ("@),
            Fragment::of_text(", "@),
            items,
            i,
        );
    } else {
        lemma_append_join_reports(
            Fragment::empty().push(expr).raw(" IN ("@),
            Fragment::of_text(", "@),
            items,
        );
    }
}

/// Escaping a value keeps a failure recorded before.
pub proof fn lemma_escape_keeps_failure(start: Fragment, value: Seq<char>)
    ensures
        keeps(start.failure, start.escape_string(value).failure),
        keeps(start.failure, start.escape_identifier(value).failure),
{
}

/// Expanding the pieces of a template keeps a failure recorded before.
pub proof fn lemma_expand_keeps_failure(
    start: Fragment,
    pieces: Seq<Seq<char>>,
    pairs: Seq<(Seq<char>, Fragment)>,
)
    ensures
        keeps(start.failure, start.expand(pieces, pairs).failure),
    decreases pieces.len(),
{
    if pieces.len() > 0 {
        lemma_expand_keeps_failure(start, pieces.drop_last(), pairs);
    }
}

/// Filling a template keeps a failure recorded before.
pub proof fn lemma_format_keeps_failure(start: Fragment, pairs: Seq<(Seq<char>, Fragment)>)
    ensures
        keeps(start.failure, start.format(pairs).failure),
{
    lemma_expand_keeps_failure(
        Fragment { text: Seq::empty(), failure: start.failure },
        template_pieces(start.text),
        pairs,
    );
}

/// An identifier made of a lowercase letter or an underscore, followed by
/// lowercase letters, digits and underscores, is written as it is, and
/// nothing fails.
pub proof fn lemma_plain_identifier_unchanged(start: Fragment, name: Seq<char>)
    requires
        name.len() > 0,
        !is_digit(name[0]),
        forall|i: int| 0 <= i < name.len() ==> is_plain(#[trigger] name[i]),
    ensures
        start.escape_identifier(name) == start.raw(name),
        Fragment::empty().escape_identifier(name) == Fragment::of_text(name),
{
    assert(!has_unplain(name));
    assert(Seq::<char>::empty() + name == name);
}

/// The quoted body of two texts written one after the other is the quoted
/// body of the first followed by that of the second.
pub proof fn lemma_quoted_body_concat(a: Seq<char>, b: Seq<char>)
    ensures
        quoted_body(a + b) == quoted_body(a) + quoted_body(b),
    decreases b.len(),
{
    if b.len() == 0 {
        assert(a + b == a);
    } else {
        lemma_quoted_body_concat(a, b.drop_last());
        assert((a + b).drop_last() == a + b.drop_last());
        assert((a + b).last() == b.last());
    }
}

/// An identifier that starts with a digit, or holds an uppercase letter or
/// a character outside ASCII, is written in double quotes.
pub proof fn lemma_unsafe_identifier_quoted(start: Fragment, name: Seq<char>)
    requires
        name.len() > 0,
        is_digit(name[0]) || exists|i: int|
            0 <= i < name.len() && (('A' <= #[trigger] name[i] <= 'Z') || name[i] as int > 127),
    ensures
        start.escape_identifier(name).text == start.text + quoted_text(name),
        quoted_text(name).first() == '"',
        quoted_text(name).last() == '"',
        quoted_text(name).subrange(1, quoted_text(name).len() - 1) == quoted_body(name),
{
    if !is_digit(name[0]) {
        let i = choose|i: int|
            0 <= i < name.len() && (('A' <= #[trigger] name[i] <= 'Z') || name[i] as int > 127);
        assert(!is_plain(name[i]));
    }
    assert(needs_quoting(name));
}

/// Inside a quoted identifier every double quote is doubled, wherever it
/// stands.
pub proof fn lemma_inner_quote_doubled(before: Seq<char>, after: Seq<char>)
    ensures
        quoted_body(before + seq!['"'] + after) == quoted_body(before) + seq!['"', '"']
            + quoted_body(after),
{
    lemma_quoted_body_concat(before + seq!['"'], after);
    lemma_quoted_body_concat(before, seq!['"']);
    assert(quoted_body(seq!['"']) == seq!['"', '"']) by {
        reveal_with_fuel(quoted_body, 2);
        assert(seq!['"'].drop_last() == Seq::<char>::empty());
    }
}

/// A text without NUL, single quote, backspace, form feed, newline, carriage
/// return and tab is written between single quotes as it is, backslashes
/// included, and nothing fails.
pub proof fn lemma_plain_literal_unchanged(start: Fragment, value: Seq<char>)
    requires
        forall|i: int| 0 <= i < value.len() ==> !is_trigger(#[trigger] value[i]),
    ensures
        start.escape_string(value) == start.raw(seq!['\''] + value + seq!['\'']),
        Fragment::empty().escape_string(value) == Fragment::of_text(
            seq!['\''] + value + seq!['\''],
        ),
{
    assert(!has_trigger(value));
    assert(!has_nul(value)) by {
        if has_nul(value) {
            let k = choose|k: int| 0 <= k < value.len() && #[trigger] value[k] == '\0';
            assert(is_trigger(value[k]));
        }
    }
    assert(Seq::<char>::empty() + (seq!['\''] + value + seq!['\'']) == seq!['\''] + value + seq![
        '\'',
    ]);
}

/// The literal body of two texts written one after the other is the literal
/// body of the first followed by that of the second.
pub proof fn lemma_literal_body_concat(a: Seq<char>, b: Seq<char>)
    ensures
        literal_body(a + b) == literal_body(a) + literal_body(b),
    decreases b.len(),
{
    if b.len() == 0 {
        assert(a + b == a);
    } else {
        lemma_literal_body_concat(a, b.drop_last());
        assert((a + b).drop_last() == a + b.drop_last());
        assert((a + b).last() == b.last());
    }
}

/// In a text that holds a character which forces the extended form, every
/// backslash is doubled, wherever it stands.
pub proof fn lemma_backslash_doubled(start: Fragment, before: Seq<char>, after: Seq<char>)
    requires
        has_trigger(before + seq!['\\'] + after),
    ensures
        start.escape_string(before + seq!['\\'] + after).text == start.text + (seq!['E', '\'']
            + (literal_body(before) + seq!['\\', '\\'] + literal_body(after)) + seq!['\'']),
{
    lemma_literal_body_concat(before + seq!['\\'], after);
    lemma_literal_body_concat(before, seq!['\\']);
    assert(literal_body(seq!['\\']) == seq!['\\', '\\']) by {
        reveal_with_fuel(literal_body, 2);
        assert(seq!['\\'].drop_last() == Seq::<char>::empty());
    }
}

/// A value without NUL fails as a varchar if and only if it holds more
/// characters than allowed; a value of exactly the allowed length passes.
pub proof fn lemma_varchar_fails_iff_too_long(value: Seq<char>, max: nat)
    requires
        !has_nul(value),
    ensures
        Fragment::varchar(value, max).failed() <==> value.len() > max,
        value.len() > max ==> Fragment::varchar(value, max) == (Fragment {
            text: poison_marker(),
            failure: Some(varchar_reason(value.len(), max)),
        }),
        value.len() <= max ==> Fragment::varchar(value, max) == Fragment::of_text(
            literal_text(value),
        ),
{
    assert(Seq::<char>::empty() + poison_marker() == poison_marker());
    assert(Seq::<char>::empty() + literal_text(value) == literal_text(value));
}

/// A NUL character makes an identifier, a text and a varchar fail, whatever
/// else the value holds.
pub proof fn lemma_nul_always_fails(start: Fragment, value: Seq<char>, max: nat)
    requires
        has_nul(value),
    ensures
        start.escape_identifier(value).failed(),
        start.escape_string(value).failed(),
        Fragment::varchar(value, max).failed(),
{
    let k = choose|k: int| 0 <= k < value.len() && #[trigger] value[k] == '\0';
    assert(!is_plain(value[k]));
    assert(is_trigger(value[k]));
    assert(needs_quoting(value));
}

/// A placeholder whose name is bound is replaced by the bound fragment,
/// pushed like any fragment; bound to a fragment that did not fail, it adds
/// that fragment's text and nothing else.
pub proof fn lemma_bound_placeholder(
    start: Fragment,
    piece: Seq<char>,
    pairs: Seq<(Seq<char>, Fragment)>,
    bound: Fragment,
)
    requires
        is_placeholder(piece),
        lookup(pairs, placeholder_name(piece)) == Some(bound),
    ensures
        start.expand_piece(piece, pairs) == start.push(bound),
        !bound.failed() ==> start.expand_piece(piece, pairs) == start.raw(bound.text),
{
}

/// A placeholder whose name is bound to nothing records a failure that
/// names it, and leaves the poison marker and the name with a notice in the
/// text.
pub proof fn lemma_unbound_placeholder(
    start: Fragment,
    piece: Seq<char>,
    pairs: Seq<(Seq<char>, Fragment)>,
)
    requires
        is_placeholder(piece),
        lookup(pairs, placeholder_name(piece)) is None,
    ensures
        start.expand_piece(piece, pairs).failure == note(
            start.failure,
            missing_reason(placeholder_name(piece)),
        ),
        start.expand_piece(piece, pairs).failed(),
        start.expand_piece(piece, pairs).text == start.text + poison_marker() + missing_notice(
            placeholder_name(piece),
        ),
{
}

/// What a name is bound to is the fragment of the first pair of that name:
/// no pair before it has the name, and pairs behind it do not matter.
pub proof fn lemma_lookup_first(pairs: Seq<(Seq<char>, Fragment)>, name: Seq<char>)
    ensures
        match lookup(pairs, name) {
            Some(bound) => exists|i: int|
                0 <= i < pairs.len() && (#[trigger] pairs[i]) == (name, bound) && forall|k: int|
                    0 <= k < i ==> (#[trigger] pairs[k]).0 != name,
            None => forall|k: int| 0 <= k < pairs.len() ==> (#[trigger] pairs[k]).0 != name,
        },
    decreases pairs.len(),
{
    if pairs.len() == 0 {
    } else if pairs[0].0 == name {
        assert(pairs[0] == (name, pairs[0].1));
    } else {
        let rest = pairs.drop_first();
        lemma_lookup_first(rest, name);
        match lookup(rest, name) {
            Some(bound) => {
                let i = choose|i: int|
                    0 <= i < rest.len() && (#[trigger] rest[i]) == (name, bound) && forall|k: int|
                        0 <= k < i ==> (#[trigger] rest[k]).0 != name;
                assert(pairs[i + 1] == rest[i]);
                assert forall|k: int| 0 <= k < i + 1 implies (#[trigger] pairs[k]).0 != name by {
                    if k > 0 {
                        assert(pairs[k] == rest[k - 1]);
                    }
                }
            },
            None => {
                assert forall|k: int| 0 <= k < pairs.len() implies (#[trigger] pairs[k]).0
                    != name by {
                    if k > 0 {
                        assert(pairs[k] == rest[k - 1]);
                    }
                }
            },
        }
    }
}

/// The pieces of a template are expanded one after the other: what a piece
/// becomes does not depend on the pieces around it.
pub proof fn lemma_expand_concat(
    start: Fragment,
    before: Seq<Seq<char>>,
    after: Seq<Seq<char>>,
    pairs: Seq<(Seq<char>, Fragment)>,
)
    ensures
        start.expand(before + after, pairs) == start.expand(before, pairs).expand(after, pairs),
    decreases after.len(),
{
    if after.len() == 0 {
        assert(before + after == before);
    } else {
        lemma_expand_concat(start, before, after.drop_last(), pairs);
        assert((before + after).drop_last() == before + after.drop_last());
        assert((before + after).last() == after.last());
    }
}

/// Where every placeholder is bound to a fragment that did not fail, the
/// template is filled without a new failure: each placeholder gives way to
/// the text bound to its name, each `\{` to `{`, and the rest is copied.
pub proof fn lemma_expand_all_bound(
    start: Fragment,
    pieces: Seq<Seq<char>>,
    pairs: Seq<(Seq<char>, Fragment)>,
)
    requires
        all_bound(pieces, pairs),
    ensures
        start.expand(pieces, pairs) == start.raw(filled(pieces, pairs)),
    decreases pieces.len(),
{
    if pieces.len() == 0 {
        assert(start.text + Seq::<char>::empty() == start.text);
    } else {
        let shorter = pieces.drop_last();
        assert forall|i: int| 0 <= i < shorter.len() && is_placeholder(
            #[trigger] shorter[i],
        ) implies (lookup(pairs, placeholder_name(shorter[i])) matches Some(bound)
            && !bound.failed()) by {
            assert(shorter[i] == pieces[i]);
        }
        lemma_expand_all_bound(start, shorter, pairs);
        let last = pieces.last();
        assert(last == pieces[pieces.len() - 1]);
        assert(start.text + filled(shorter, pairs) + piece_text(last, pairs) == start.text + (
            filled(shorter, pairs) + piece_text(last, pairs)));
    }
}

/// One placeholder whose name is bound to nothing makes the filled template
/// fail, wherever it stands.
pub proof fn lemma_expand_unbound_fails(
    start: Fragment,
    pieces: Seq<Seq<char>>,
    pairs: Seq<(Seq<char>, Fragment)>,
    i: int,
)
    requires
        0 <= i < pieces.len(),
        is_placeholder(pieces[i]),
        lookup(pairs, placeholder_name(pieces[i])) is None,
    ensures
        start.expand(pieces, pairs).failed(),
{
    let before = pieces.take(i);
    let after = pieces.skip(i + 1);
    assert(pieces == before + seq![pieces[i]] + after);
    lemma_expand_concat(start, before + seq![pieces[i]], after, pairs);
    lemma_expand_concat(start, before, seq![pieces[i]], pairs);
    let reached = start.expand(before, pairs);
    assert(reached.expand(seq![pieces[i]], pairs) == reached.expand_piece(pieces[i], pairs)) by {
        reveal_with_fuel(Fragment::expand, 2);
        assert(seq![pieces[i]].drop_last() == Seq::<Seq<char>>::empty());
        assert(seq![pieces[i]].last() == pieces[i]);
    }
    lemma_expand_keeps_failure(reached.expand_piece(pieces[i], pairs), after, pairs);
}

/// The piece `\{` becomes the one character `{`, whatever stands before and
/// behind it, and whatever the names are bound to.
pub proof fn lemma_brace_escape(
    start: Fragment,
    before: Seq<Seq<char>>,
    after: Seq<Seq<char>>,
    pairs: Seq<(Seq<char>, Fragment)>,
)
    ensures
        start.expand(before + seq![seq!['\\', '{']] + after, pairs) == start.expand(
            before,
            pairs,
        ).raw(seq!['{']).expand(after, pairs),
{
    let escape = seq!['\\', '{'];
    lemma_expand_concat(start, before + seq![escape], after, pairs);
    lemma_expand_concat(start, before, seq![escape], pairs);
    let reached = start.expand(before, pairs);
    assert(reached.expand(seq![escape], pairs) == reached.raw(seq!['{'])) by {
        reveal_with_fuel(Fragment::expand, 2);
        assert(seq![escape].drop_last() == Seq::<Seq<char>>::empty());
        assert(seq![escape].last() == escape);
        assert(!is_placeholder(escape));
        assert(is_brace_escape(escape));
    }
}

/// The first piece is expanded before the pieces behind it.
pub proof fn lemma_expand_first(
    start: Fragment,
    piece: Seq<char>,
    rest: Seq<Seq<char>>,
    pairs: Seq<(Seq<char>, Fragment)>,
)
    ensures
        start.expand(seq![piece] + rest, pairs) == start.expand_piece(piece, pairs).expand(
            rest,
            pairs,
        ),
{
    lemma_expand_concat(start, seq![piece], rest, pairs);
    assert(start.expand(seq![piece], pairs) == start.expand_piece(piece, pairs)) by {
        reveal_with_fuel(Fragment::expand, 2);
        assert(seq![piece].drop_last() == Seq::<Seq<char>>::empty());
        assert(seq![piece].last() == piece);
    }
}

/// In a template, `\{` in front gives the one character `{`, and what
/// follows is filled as if it stood alone.
pub proof fn lemma_fill_escape(
    start: Fragment,
    rest: Seq<char>,
    pairs: Seq<(Seq<char>, Fragment)>,
)
    ensures
        start.fill(seq!['\\', '{'] + rest, pairs) == start.raw(seq!['{']).fill(rest, pairs),
{
    let escape = seq!['\\', '{'];
    lemma_cut_escape_first(rest);
    lemma_expand_first(start, escape, template_pieces(rest), pairs);
    assert(!is_placeholder(escape));
    assert(is_brace_escape(escape));
}

/// In a template, a placeholder in front, whose name is not empty and holds
/// no `}`, gives way to the fragment bound to its name, or to the notice of
/// a missing variable; what follows is filled as if it stood alone.
pub proof fn lemma_fill_placeholder(
    start: Fragment,
    name: Seq<char>,
    rest: Seq<char>,
    pairs: Seq<(Seq<char>, Fragment)>,
)
    requires
        name.len() > 0,
        forall|k: int| 0 <= k < name.len() ==> name[k] != '}',
    ensures
        start.fill(seq!['{'] + name + seq!['}'] + rest, pairs) == (match lookup(pairs, name) {
            Some(bound) => start.push(bound),
            None => start.fail(missing_reason(name)).raw(missing_notice(name)),
        }).fill(rest, pairs),
{
    let placeholder = seq!['{'] + name + seq!['}'];
    lemma_cut_placeholder_first(name, rest);
    lemma_expand_first(start, placeholder, template_pieces(rest), pairs);
    assert(placeholder.first() == '{');
    assert(placeholder.last() == '}');
    assert(is_placeholder(placeholder));
    assert(placeholder_name(placeholder) == name);
}

/// In a template, a character of ordinary text in front is copied, and what
/// follows is filled as if it stood alone. A backslash is ordinary text
/// unless a `{` follows it.
pub proof fn lemma_fill_plain_char(
    start: Fragment,
    c: char,
    rest: Seq<char>,
    pairs: Seq<(Seq<char>, Fragment)>,
)
    requires
        c != '{',
        !(c == '\\' && rest.len() > 0 && rest[0] == '{'),
    ensures
        start.fill(seq![c] + rest, pairs) == start.raw(seq![c]).fill(rest, pairs),
{
    lemma_cut_plain_first(c, rest);
    let m = span_plain(rest, 0) as int;
    if m == 0 {
        lemma_expand_first(start, seq![c], template_pieces(rest), pairs);
        assert(!is_placeholder(seq![c]));
        assert(!is_brace_escape(seq![c]));
    } else {
        let run = rest.subrange(0, m);
        let behind = pieces_from(rest, m);
        let longer = seq![c] + run;
        lemma_expand_first(start, longer, behind, pairs);
        lemma_expand_first(start.raw(seq![c]), run, behind, pairs);
        assert(longer[0] == c);
        assert(!is_placeholder(longer));
        assert(!is_brace_escape(longer)) by {
            if longer.len() == 2 {
                assert(longer[1] == run[0]);
            }
        }
        assert(!is_placeholder(run));
        assert(!is_brace_escape(run)) by {
            if run.len() == 2 {
                assert(run[1] != '{');
            }
        }
        assert(start.text + longer == start.text + seq![c] + run);
    }
}

/// In a template, text in front that holds no `{` is copied, backslashes
/// included, as long as no `{` follows it directly; what follows is filled
/// as if it stood alone.
pub proof fn lemma_fill_plain(
    start: Fragment,
    text: Seq<char>,
    rest: Seq<char>,
    pairs: Seq<(Seq<char>, Fragment)>,
)
    requires
        forall|k: int| 0 <= k < text.len() ==> text[k] != '{',
        text.len() > 0 && text.last() == '\\' ==> !(rest.len() > 0 && rest[0] == '{'),
    ensures
        start.fill(text + rest, pairs) == start.raw(text).fill(rest, pairs),
    decreases text.len(),
{
    if text.len() == 0 {
        assert(text + rest == rest);
        assert(start.text + text == start.text);
    } else {
        let c = text[0];
        let tail = text.drop_first();
        assert(text + rest == seq![c] + (tail + rest));
        if tail.len() > 0 {
            assert((tail + rest)[0] == tail[0]);
            assert(tail[0] == text[1]);
            assert(tail.last() == text.last());
        } else {
            assert(tail + rest == rest);
            assert(text.last() == c);
        }
        assert forall|k: int| 0 <= k < tail.len() implies tail[k] != '{' by {
            assert(tail[k] == text[k + 1]);
        }
        lemma_fill_plain_char(start, c, tail + rest, pairs);
        lemma_fill_plain(start.raw(seq![c]), tail, rest, pairs);
        assert(start.text + seq![c] + tail == start.text + text) by {
            assert(seq![c] + tail == text);
            assert(start.text + seq![c] + tail == start.text + (seq![c] + tail));
        }
    }
}

/// In a template, a `{` that opens no placeholder is left out.
pub proof fn lemma_fill_lone_brace(
    start: Fragment,
    rest: Seq<char>,
    pairs: Seq<(Seq<char>, Fragment)>,
)
    requires
        !placeholder_at(seq!['{'] + rest, 0),
    ensures
        start.fill(seq!['{'] + rest, pairs) == start.fill(rest, pairs),
{
    lemma_cut_lone_brace(rest);
}

/// `\{` in a template gives a literal `{` wherever it stands behind text
/// without `{`, whatever that text and the text behind it are.
pub proof fn lemma_escaped_brace_in_text(
    start: Fragment,
    before: Seq<char>,
    after: Seq<char>,
    pairs: Seq<(Seq<char>, Fragment)>,
)
    requires
        forall|k: int| 0 <= k < before.len() ==> before[k] != '{',
    ensures
        start.fill(before + seq!['\\', '{'] + after, pairs) == start.raw(before).raw(
            seq!['{'],
        ).fill(after, pairs),
        (forall|k: int| 0 <= k < after.len() ==> after[k] != '{') && !(after.len() > 0
            && after.last() == '\\') ==> start.fill(before + seq!['\\', '{'] + after, pairs)
            == start.raw(before + seq!['{'] + after),
{
    let escape = seq!['\\', '{'];
    assert(before + escape + after == before + (escape + after));
    assert((escape + after)[0] == '\\');
    lemma_fill_plain(start, before, escape + after, pairs);
    lemma_fill_escape(start.raw(before), after, pairs);
    if (forall|k: int| 0 <= k < after.len() ==> after[k] != '{') && !(after.len() > 0
        && after.last() == '\\') {
        let reached = start.raw(before).raw(seq!['{']);
        assert(after + Seq::<char>::empty() == after);
        lemma_fill_plain(reached, after, Seq::empty(), pairs);
        assert(template_pieces(Seq::<char>::empty()) == Seq::<Seq<char>>::empty());
        assert(start.text + before + seq!['{'] + after == start.text + (before + seq!['{']
            + after));
    }
}

/// A template written from ordinary text, placeholders whose names are
/// bound, and escaped braces is filled to the same parts with each
/// placeholder replaced by the text bound to its name and each escaped
/// brace by `{`; everything else stays in place, and nothing fails.
pub proof fn lemma_fill_written(
    start: Fragment,
    parts: Seq<Part>,
    pairs: Seq<(Seq<char>, Fragment)>,
)
    requires
        forall|i: int| 0 <= i < parts.len() ==> part_fits(#[trigger] parts[i], pairs),
    ensures
        start.fill(written(parts), pairs) == start.raw(replaced(parts, pairs)),
    decreases parts.len(),
{
    if parts.len() == 0 {
        assert(template_pieces(Seq::<char>::empty()) == Seq::<Seq<char>>::empty());
        assert(start.text + Seq::<char>::empty() == start.text);
    } else {
        let first = parts[0];
        let others = parts.drop_first();
        let rest = written(others);
        assert(part_fits(first, pairs));
        assert forall|i: int| 0 <= i < others.len() implies part_fits(
            #[trigger] others[i],
            pairs,
        ) by {
            assert(others[i] == parts[i + 1]);
        }
        let reached = start.raw(part_replaced(first, pairs));
        match first {
            Part::Text(text) => {
                lemma_fill_plain(start, text, rest, pairs);
            },
            Part::Hole(name) => {
                lemma_fill_placeholder(start, name, rest, pairs);
            },
            Part::Brace => {
                lemma_fill_escape(start, rest, pairs);
            },
        }
        assert(start.fill(written(parts), pairs) == reached.fill(rest, pairs));
        lemma_fill_written(reached, others, pairs);
        assert(start.text + part_replaced(first, pairs) + replaced(others, pairs) == start.text
            + (part_replaced(first, pairs) + replaced(others, pairs)));
    }
}

/// A template whose every part fits is filled by `format` to the parts
/// replaced; a failure recorded before stays as it is, and none is added.
pub proof fn lemma_format_written(
    template: Fragment,
    parts: Seq<Part>,
    pairs: Seq<(Seq<char>, Fragment)>,
)
    requires
        template.text == written(parts),
        forall|i: int| 0 <= i < parts.len() ==> part_fits(#[trigger] parts[i], pairs),
    ensures
        template.format(pairs) == (Fragment {
            text: replaced(parts, pairs),
            failure: template.failure,
        }),
{
    lemma_fill_written(Fragment { text: Seq::empty(), failure: template.failure }, parts, pairs);
    assert(Seq::<char>::empty() + replaced(parts, pairs) == replaced(parts, pairs));
}

/// Without items, a clause and an `IN` list are the boolean literal asked
/// for.
pub proof fn lemma_nothing_to_combine(delimit: Fragment, expr: Fragment, on_empty: bool)
    ensures
        Fragment::clause(delimit, Seq::empty(), on_empty) == Fragment::of_text(
            boolean_text(on_empty),
        ),
        Fragment::in_list(expr, Seq::empty(), on_empty) == Fragment::of_text(
            boolean_text(on_empty),
        ),
{
}

/// The conjunction of two fragments that did not fail: an opening
/// parenthesis and a newline, the first, ` AND` and a newline, the second, a
/// newline and the closing parenthesis.
pub proof fn lemma_and_of_two(a: Fragment, b: Fragment, on_empty: bool)
    requires
        !a.failed(),
        !b.failed(),
    ensures
        Fragment::clause(Fragment::and_delimiter(), seq![a, b], on_empty) == Fragment::of_text(
            "(\n"@ + a.text + " AND\n"@ + b.text + "\n)"@,
        ),
{
    reveal_with_fuel(Fragment::append_join, 2);
    let items = seq![a, b];
    assert(items.drop_last() == seq![a]);
    assert(items.last() == b);
}

/// An `IN` list of one value, where nothing failed: the expression, ` IN (`,
/// the value and `)`.
pub proof fn lemma_in_list_of_one(expr: Fragment, value: Fragment, on_empty: bool)
    requires
        !expr.failed(),
        !value.failed(),
    ensures
        Fragment::in_list(expr, seq![value], on_empty) == Fragment::of_text(
            expr.text + " IN ("@ + value.text + ")"@,
        ),
{
    assert(Seq::<char>::empty() + expr.text == expr.text);
}

} // verus!
