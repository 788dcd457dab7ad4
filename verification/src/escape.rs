//! Escaping of string literals and identifiers, as mathematics.

use vstd::prelude::*;
use crate::fragment::Fragment;

verus! {

/// Whether `c` forces a string literal into the extended form.
pub open spec fn is_trigger(c: char) -> bool {
    c == '\0' || c == '\'' || c == '\x08' || c == '\x0C' || c == '\n' || c == '\r' || c == '\t'
}

/// Whether some character of `s` forces the extended form.
pub open spec fn has_trigger(s: Seq<char>) -> bool {
    exists|i: int| 0 <= i < s.len() && is_trigger(#[trigger] s[i])
}

/// One more character changes `has_trigger` by that character alone.
pub proof fn lemma_has_trigger_step(s: Seq<char>, i: int)
    requires
        0 <= i < s.len(),
    ensures
        has_trigger(s.take(i + 1)) == (has_trigger(s.take(i)) || is_trigger(s[i])),
        has_trigger(s.take(0)) == false,
        s.take(s.len() as int) == s,
{
    let shorter = s.take(i);
    let longer = s.take(i + 1);
    if has_trigger(longer) {
        let k = choose|k: int| 0 <= k < longer.len() && is_trigger(#[trigger] longer[k]);
        if k < i {
            assert(is_trigger(shorter[k]));
        }
    }
    if has_trigger(shorter) {
        let k = choose|k: int| 0 <= k < shorter.len() && is_trigger(#[trigger] shorter[k]);
        assert(is_trigger(longer[k]));
    }
    if is_trigger(s[i]) {
        assert(is_trigger(longer[i]));
    }
}

/// Whether `s` holds a NUL character.
pub open spec fn has_nul(s: Seq<char>) -> bool {
    exists|i: int| 0 <= i < s.len() && #[trigger] s[i] == '\0'
}

/// One more character changes `has_nul` by that character alone.
pub proof fn lemma_has_nul_step(s: Seq<char>, i: int)
    requires
        0 <= i < s.len(),
    ensures
        has_nul(s.take(i + 1)) == (has_nul(s.take(i)) || s[i] == '\0'),
        has_nul(s.take(0)) == false,
{
    let shorter = s.take(i);
    let longer = s.take(i + 1);
    if has_nul(longer) {
        let k = choose|k: int| 0 <= k < longer.len() && #[trigger] longer[k] == '\0';
        if k < i {
            assert(shorter[k] == '\0');
        }
    }
    if has_nul(shorter) {
        let k = choose|k: int| 0 <= k < shorter.len() && #[trigger] shorter[k] == '\0';
        assert(longer[k] == '\0');
    }
    if s[i] == '\0' {
        assert(longer[i] == '\0');
    }
}

/// What one character becomes inside an extended string literal.
pub open spec fn literal_char(c: char) -> Seq<char> {
    if c == '\0' {
        Seq::empty()
    } else if c == '\\' {
        seq!['\\', '\\']
    } else if c == '\'' {
        seq!['\\', '\'']
    } else if c == '\x08' {
        seq!['\\', 'b']
    } else if c == '\x0C' {
        seq!['\\', 'f']
    } else if c == '\n' {
        seq!['\\', 'n']
    } else if c == '\r' {
        seq!['\\', 'r']
    } else if c == '\t' {
        seq!['\\', 't']
    } else {
        seq![c]
    }
}

/// The characters of `s`, each as it stands inside an extended string literal.
pub open spec fn literal_body(s: Seq<char>) -> Seq<char>
    decreases s.len(),
{
    if s.len() == 0 {
        Seq::empty()
    } else {
        literal_body(s.drop_last()) + literal_char(s.last())
    }
}

/// One more character adds its own rendering to the body.
pub proof fn lemma_literal_body_step(s: Seq<char>, i: int)
    requires
        0 <= i < s.len(),
    ensures
        literal_body(s.take(i + 1)) == literal_body(s.take(i)) + literal_char(s[i]),
        literal_body(s.take(0)) == Seq::<char>::empty(),
{
    assert(s.take(i + 1).drop_last() == s.take(i));
}

/// The reason recorded for a NUL character in a string literal.
pub open spec fn literal_nul_reason() -> Seq<char> {
    "Zero character in string"@
}

/// The string literal that stands for `s`: the plain form `'s'` where no
/// character forces the extended form, else `E'...'` with each character
/// rendered by `literal_char`.
pub open spec fn literal_text(s: Seq<char>) -> Seq<char> {
    if has_trigger(s) {
        seq!['E', '\''] + literal_body(s) + seq!['\'']
    } else {
        seq!['\''] + s + seq!['\'']
    }
}

impl Fragment {
    /// The string literal for `s` appended; a NUL in `s` is recorded as a
    /// failure, once, and leaves no character in the text.
    pub open spec fn escape_string(self, s: Seq<char>) -> Fragment {
        let grown = self.raw(literal_text(s));
        if has_nul(s) {
            grown.record(literal_nul_reason())
        } else {
            grown
        }
    }
}

/// Whether `c` is an ASCII digit.
pub open spec fn is_digit(c: char) -> bool {
    '0' <= c <= '9'
}

/// Whether `c` may stand in an identifier that is written without quotes:
/// an ASCII lowercase letter, an ASCII digit or an underscore.
pub open spec fn is_plain(c: char) -> bool {
    ('a' <= c <= 'z') || is_digit(c) || c == '_'
}

/// Whether some character of `s` is not plain.
pub open spec fn has_unplain(s: Seq<char>) -> bool {
    exists|i: int| 0 <= i < s.len() && !is_plain(#[trigger] s[i])
}

/// One more character changes `has_unplain` by that character alone.
pub proof fn lemma_has_unplain_step(s: Seq<char>, i: int)
    requires
        0 <= i < s.len(),
    ensures
        has_unplain(s.take(i + 1)) == (has_unplain(s.take(i)) || !is_plain(s[i])),
        has_unplain(s.take(0)) == false,
{
    let shorter = s.take(i);
    let longer = s.take(i + 1);
    if has_unplain(longer) {
        let k = choose|k: int| 0 <= k < longer.len() && !is_plain(#[trigger] longer[k]);
        if k < i {
            assert(!is_plain(shorter[k]));
        }
    }
    if has_unplain(shorter) {
        let k = choose|k: int| 0 <= k < shorter.len() && !is_plain(#[trigger] shorter[k]);
        assert(!is_plain(longer[k]));
    }
    if !is_plain(s[i]) {
        assert(!is_plain(longer[i]));
    }
}

/// Whether the non-empty identifier `s` has to be written in double quotes:
/// it starts with a digit, or one of its characters is not plain.
pub open spec fn needs_quoting(s: Seq<char>) -> bool {
    s.len() > 0 && (is_digit(s[0]) || has_unplain(s))
}

/// What one character becomes inside a quoted identifier.
pub open spec fn quoted_char(c: char) -> Seq<char> {
    if c == '\0' {
        Seq::empty()
    } else if c == '"' {
        seq!['"', '"']
    } else if c == '\x08' {
        seq!['\\', 'b']
    } else if c == '\x0C' {
        seq!['\\', 'f']
    } else if c == '\n' {
        seq!['\\', 'n']
    } else if c == '\r' {
        seq!['\\', 'r']
    } else if c == '\t' {
        seq!['\\', 't']
    } else {
        seq![c]
    }
}

/// The characters of `s`, each as it stands inside a quoted identifier.
pub open spec fn quoted_body(s: Seq<char>) -> Seq<char>
    decreases s.len(),
{
    if s.len() == 0 {
        Seq::empty()
    } else {
        quoted_body(s.drop_last()) + quoted_char(s.last())
    }
}

/// One more character adds its own rendering to the body.
pub proof fn lemma_quoted_body_step(s: Seq<char>, i: int)
    requires
        0 <= i < s.len(),
    ensures
        quoted_body(s.take(i + 1)) == quoted_body(s.take(i)) + quoted_char(s[i]),
        quoted_body(s.take(0)) == Seq::<char>::empty(),
{
    assert(s.take(i + 1).drop_last() == s.take(i));
}

/// The quoted form of the identifier `s`.
pub open spec fn quoted_text(s: Seq<char>) -> Seq<char> {
    seq!['"'] + quoted_body(s) + seq!['"']
}

/// The reason recorded for an identifier without characters.
pub open spec fn empty_identifier_reason() -> Seq<char> {
    "empty identifier"@
}

/// The reason recorded for a NUL character in an identifier.
pub open spec fn identifier_nul_reason() -> Seq<char> {
    "string contains the null character"@
}

impl Fragment {
    /// The identifier `s` appended. An empty `s` is recorded as a failure and
    /// adds no text. An `s` that needs quoting is appended in its quoted
    /// form, and a NUL in it is recorded as a failure, once. Any other `s` is
    /// appended as it is.
    pub open spec fn escape_identifier(self, s: Seq<char>) -> Fragment {
        if s.len() == 0 {
            self.record(empty_identifier_reason())
        } else if needs_quoting(s) {
            let grown = self.raw(quoted_text(s));
            if has_nul(s) {
                grown.record(identifier_nul_reason())
            } else {
                grown
            }
        } else {
            self.raw(s)
        }
    }
}

} // verus!
