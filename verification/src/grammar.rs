//! The grammar of templates: how the text of a template is cut into pieces.
//!
//! At each position an escaped brace `\{` comes first, then a placeholder
//! `{name}`, then a run of ordinary text.

use vstd::prelude::*;
use crate::strings::{characters, copied};

verus! {

/// Whether the escaped brace `\{` stands at position `i` of `text`.
pub open spec fn escape_at(text: Seq<char>, i: int) -> bool {
    0 <= i && i + 1 < text.len() && text[i] == '\\' && text[i + 1] == '{'
}

/// How many characters from position `i` on stand before the next `}`, or
/// before the end of `text` where no `}` follows.
pub open spec fn span_name(text: Seq<char>, i: int) -> nat
    decreases text.len() - i,
{
    if i < 0 || i >= text.len() || text[i] == '}' {
        0
    } else {
        1 + span_name(text, i + 1)
    }
}

/// How many characters from position `i` on are ordinary text: the run ends
/// before the next `{`, before a backslash that is followed by `{`, and at
/// the end of `text`.
pub open spec fn span_plain(text: Seq<char>, i: int) -> nat
    decreases text.len() - i,
{
    if i < 0 || i >= text.len() || text[i] == '{' || escape_at(text, i) {
        0
    } else {
        1 + span_plain(text, i + 1)
    }
}

/// Whether a placeholder starts at position `i` of `text`: a `{`, a name of
/// at least one character that holds no `}`, and the `}` that closes it.
pub open spec fn placeholder_at(text: Seq<char>, i: int) -> bool {
    0 <= i < text.len() && text[i] == '{' && span_name(text, i + 1) > 0 && i + 1 + span_name(
        text,
        i + 1,
    ) < text.len()
}

/// The pieces of `text` from position `i` on. An escaped brace is a piece of
/// its own, and so is a placeholder with its braces, and so is a run of
/// ordinary text. A `{` that opens no placeholder belongs to no piece.
pub open spec fn pieces_from(text: Seq<char>, i: int) -> Seq<Seq<char>>
    decreases text.len() - i,
    via pieces_from_ends
{
    if i < 0 || i >= text.len() {
        Seq::empty()
    } else if escape_at(text, i) {
        seq![text.subrange(i, i + 2)] + pieces_from(text, i + 2)
    } else if text[i] == '{' {
        if placeholder_at(text, i) {
            let end = i + 2 + span_name(text, i + 1);
            seq![text.subrange(i, end)] + pieces_from(text, end)
        } else {
            pieces_from(text, i + 1)
        }
    } else {
        let end = i + 1 + span_plain(text, i + 1);
        seq![text.subrange(i, end)] + pieces_from(text, end)
    }
}

#[via_fn]
proof fn pieces_from_ends(text: Seq<char>, i: int) {
    if 0 <= i < text.len() {
        lemma_spans_end_in_text(text, i + 1);
    }
}

/// The pieces that the template `text` is cut into, from left to right.
pub open spec fn template_pieces(text: Seq<char>) -> Seq<Seq<char>> {
    pieces_from(text, 0)
}

/// The strings of `pieces` as sequences of characters.
pub open spec fn texts(pieces: Seq<String>) -> Seq<Seq<char>> {
    pieces.map_values(|piece: String| piece@)
}

/// A span never runs past the end of the text.
pub proof fn lemma_spans_end_in_text(text: Seq<char>, i: int)
    requires
        0 <= i <= text.len(),
    ensures
        i + span_name(text, i) <= text.len(),
        i + span_plain(text, i) <= text.len(),
    decreases text.len() - i,
{
    if i < text.len() {
        lemma_spans_end_in_text(text, i + 1);
    }
}

/// Where a span starts behind a prefix, the prefix does not matter.
pub proof fn lemma_span_shift(before: Seq<char>, text: Seq<char>, k: int)
    requires
        0 <= k <= text.len(),
    ensures
        span_name(before + text, before.len() + k) == span_name(text, k),
        span_plain(before + text, before.len() + k) == span_plain(text, k),
    decreases text.len() - k,
{
    let whole = before + text;
    if k < text.len() {
        lemma_span_shift(before, text, k + 1);
        assert(whole[before.len() + k] == text[k]);
        if k + 1 < text.len() {
            assert(whole[before.len() + k + 1] == text[k + 1]);
        }
        assert(escape_at(whole, before.len() + k) == escape_at(text, k));
    }
}

/// The cut of a text from a position on depends on nothing before that
/// position.
pub proof fn lemma_pieces_shift(before: Seq<char>, text: Seq<char>, k: int)
    requires
        0 <= k <= text.len(),
    ensures
        pieces_from(before + text, before.len() + k) == pieces_from(text, k),
    decreases text.len() - k,
{
    let whole = before + text;
    let at = before.len() + k;
    if k < text.len() {
        assert(whole[at] == text[k]);
        if k + 1 < text.len() {
            assert(whole[at + 1] == text[k + 1]);
        }
        assert(escape_at(whole, at) == escape_at(text, k));
        lemma_span_shift(before, text, k + 1);
        lemma_spans_end_in_text(text, k + 1);
        if escape_at(text, k) {
            lemma_pieces_shift(before, text, k + 2);
            assert(whole.subrange(at, at + 2) == text.subrange(k, k + 2));
        } else if text[k] == '{' {
            assert(placeholder_at(whole, at) == placeholder_at(text, k));
            if placeholder_at(text, k) {
                let end = k + 2 + span_name(text, k + 1);
                lemma_pieces_shift(before, text, end);
                assert(whole.subrange(at, before.len() + end) == text.subrange(k, end));
            } else {
                lemma_pieces_shift(before, text, k + 1);
            }
        } else {
            let end = k + 1 + span_plain(text, k + 1);
            lemma_pieces_shift(before, text, end);
            assert(whole.subrange(at, before.len() + end) == text.subrange(k, end));
        }
    }
}

/// A name without `}` that is followed by `}` is spanned exactly.
pub proof fn lemma_span_name_exact(text: Seq<char>, i: int, n: int)
    requires
        0 <= i,
        0 <= n,
        i + n < text.len(),
        forall|k: int| i <= k < i + n ==> text[k] != '}',
        text[i + n] == '}',
    ensures
        span_name(text, i) == n,
    decreases n,
{
    if n > 0 {
        lemma_span_name_exact(text, i + 1, n - 1);
    }
}

/// A template that starts with `\{` is cut into that escape and the pieces
/// of what follows.
pub proof fn lemma_cut_escape_first(rest: Seq<char>)
    ensures
        template_pieces(seq!['\\', '{'] + rest) == seq![seq!['\\', '{']] + template_pieces(rest),
{
    let escape = seq!['\\', '{'];
    let whole = escape + rest;
    assert(escape_at(whole, 0));
    lemma_pieces_shift(escape, rest, 0);
    assert(whole.subrange(0, 2) == escape);
}

/// A template that starts with a placeholder, whose name is not empty and
/// holds no `}`, is cut into that placeholder and the pieces of what
/// follows.
pub proof fn lemma_cut_placeholder_first(name: Seq<char>, rest: Seq<char>)
    requires
        name.len() > 0,
        forall|k: int| 0 <= k < name.len() ==> name[k] != '}',
    ensures
        template_pieces(seq!['{'] + name + seq!['}'] + rest) == seq![
            seq!['{'] + name + seq!['}'],
        ] + template_pieces(rest),
{
    let placeholder = seq!['{'] + name + seq!['}'];
    let whole = placeholder + rest;
    assert forall|k: int| 1 <= k < 1 + name.len() implies whole[k] != '}' by {
        assert(whole[k] == name[k - 1]);
    }
    assert(whole[1 + name.len() as int] == '}');
    lemma_span_name_exact(whole, 1, name.len() as int);
    assert(!escape_at(whole, 0));
    assert(placeholder_at(whole, 0));
    lemma_pieces_shift(placeholder, rest, 0);
    assert(whole.subrange(0, 2 + name.len() as int) == placeholder);
}

/// A template that starts with a character of ordinary text: that character
/// is the start of the first piece, and the piece runs on as the first
/// piece of what follows would, if that is ordinary text too.
pub proof fn lemma_cut_plain_first(c: char, rest: Seq<char>)
    requires
        c != '{',
        !(c == '\\' && rest.len() > 0 && rest[0] == '{'),
    ensures
        span_plain(rest, 0) == 0 ==> template_pieces(seq![c] + rest) == seq![seq![c]]
            + template_pieces(rest),
        span_plain(rest, 0) > 0 ==> {
            let run = rest.subrange(0, span_plain(rest, 0) as int);
            &&& template_pieces(rest) == seq![run] + pieces_from(rest, span_plain(rest, 0) as int)
            &&& template_pieces(seq![c] + rest) == seq![seq![c] + run] + pieces_from(
                rest,
                span_plain(rest, 0) as int,
            )
            &&& run.len() > 0
            &&& run[0] != '{'
            &&& run.len() >= 2 ==> run[1] != '{'
        },
{
    let first = seq![c];
    let whole = first + rest;
    let m = span_plain(rest, 0) as int;
    assert(whole[0] == c);
    if rest.len() > 0 {
        assert(whole[1] == rest[0]);
    }
    assert(!escape_at(whole, 0));
    lemma_span_shift(first, rest, 0);
    lemma_spans_end_in_text(rest, 0);
    lemma_pieces_shift(first, rest, m);
    assert(whole.subrange(0, 1 + m) == first + rest.subrange(0, m));
    if m == 0 {
        assert(rest.subrange(0, 0) == Seq::<char>::empty());
        assert(first + Seq::<char>::empty() == first);
    } else {
        assert(m == 1 + span_plain(rest, 1));
        let run = rest.subrange(0, m);
        assert(run[0] == rest[0]);
        if m >= 2 {
            assert(span_plain(rest, 1) > 0);
            assert(run[1] == rest[1]);
        }
    }
}

/// A `{` that opens no placeholder is left out of the cut.
pub proof fn lemma_cut_lone_brace(rest: Seq<char>)
    requires
        !placeholder_at(seq!['{'] + rest, 0),
    ensures
        template_pieces(seq!['{'] + rest) == template_pieces(rest),
{
    let whole = seq!['{'] + rest;
    assert(!escape_at(whole, 0));
    lemma_pieces_shift(seq!['{'], rest, 0);
}

/// Where no `}` follows, the name spans the rest of the text.
pub proof fn lemma_span_name_to_end(text: Seq<char>, i: int)
    requires
        0 <= i <= text.len(),
        forall|k: int| i <= k < text.len() ==> text[k] != '}',
    ensures
        i + span_name(text, i) == text.len(),
    decreases text.len() - i,
{
    if i < text.len() {
        lemma_span_name_to_end(text, i + 1);
    }
}

/// Cuts `template` into its pieces.
pub fn cut(template: &str) -> (pieces: Vec<String>)
    ensures
        texts(pieces@) == template_pieces(template@),
{
    let chars = characters(template);
    let n = chars.len();
    let ghost text = template@;
    let mut pieces: Vec<String> = Vec::new();
    let mut i: usize = 0;
    // Once a search for `}` has run to the end, no later one can succeed.
    let mut none_closes = false;
    assert(texts(pieces@) + pieces_from(text, 0) == template_pieces(text));
    while i < n
        invariant
            i <= n,
            n == chars.len(),
            chars@ == text,
            text == template@,
            none_closes ==> forall|k: int| i <= k < n ==> text[k] != '}',
            texts(pieces@) + pieces_from(text, i as int) == template_pieces(text),
        decreases n - i,
    {
        let ghost cut_before = texts(pieces@);
        let from = i;
        if chars[i] == '\\' && i + 1 < n && chars[i + 1] == '{' {
            i = i + 2;
        } else if chars[i] == '{' {
            let mut j: usize = i + 1;
            if none_closes {
                proof {
                    lemma_span_name_to_end(text, i + 1);
                }
                j = n;
            }
            while j < n && chars[j] != '}'
                invariant
                    i + 1 <= j <= n,
                    n == chars.len(),
                    chars@ == text,
                    span_name(text, i + 1) == (j - (i + 1)) + span_name(text, j as int),
                    !none_closes ==> forall|k: int| i < k < j ==> text[k] != '}',
                decreases n - j,
            {
                j = j + 1;
            }
            if j == n {
                none_closes = true;
            }
            if j < n && j > i + 1 {
                i = j + 1;
            } else {
                i = i + 1;
                assert(!placeholder_at(text, from as int));
                assert(cut_before + pieces_from(text, i as int) == template_pieces(text));
                continue ;
            }
        } else {
            let mut j: usize = i + 1;
            while j < n && chars[j] != '{' && !(chars[j] == '\\' && j + 1 < n && chars[j + 1]
                == '{')
                invariant
                    i + 1 <= j <= n,
                    n == chars.len(),
                    chars@ == text,
                    span_plain(text, i + 1) == (j - (i + 1)) + span_plain(text, j as int),
                decreases n - j,
            {
                j = j + 1;
            }
            i = j;
        }
        let piece = copied(&chars, from, i);
        pieces.push(piece);
        proof {
            let part = text.subrange(from as int, i as int);
            assert(pieces_from(text, from as int) == seq![part] + pieces_from(text, i as int));
            assert(texts(pieces@) == cut_before.push(part));
            assert(cut_before.push(part) + pieces_from(text, i as int) == cut_before + (seq![part]
                + pieces_from(text, i as int)));
        }
    }
    assert(pieces_from(text, n as int) == Seq::<Seq<char>>::empty());
    assert(texts(pieces@) + Seq::<Seq<char>>::empty() == texts(pieces@));
    pieces
}

} // verus!
