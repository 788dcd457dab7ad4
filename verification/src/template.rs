//! Placeholder substitution: a template is cut into pieces, and each piece
//! is copied, unescaped or replaced by the fragment bound to its name.

use vstd::prelude::*;
use vstd::string::StrSliceExecFns;
use crate::fragment::Fragment;
use crate::grammar::{cut, template_pieces, texts};
use crate::sql::SQL;
use crate::strings::same_text;

verus! {

/// The names and fragments that a template is filled from.
pub open spec fn bindings(values: Seq<(&str, SQL)>) -> Seq<(Seq<char>, Fragment)> {
    values.map_values(|pair: (&str, SQL)| (pair.0@, pair.1@))
}

/// Whether `piece` is a placeholder: it starts with `{` and ends with `}`.
pub open spec fn is_placeholder(piece: Seq<char>) -> bool {
    piece.len() >= 2 && piece.first() == '{' && piece.last() == '}'
}

/// The name between the braces of a placeholder.
pub open spec fn placeholder_name(piece: Seq<char>) -> Seq<char> {
    piece.subrange(1, piece.len() - 1)
}

/// Whether `piece` is the escaped brace `\{`.
pub open spec fn is_brace_escape(piece: Seq<char>) -> bool {
    piece == seq!['\\', '{']
}

/// The fragment of the first pair named `name`, if there is one. A later
/// pair of the same name is never reached.
pub open spec fn lookup(pairs: Seq<(Seq<char>, Fragment)>, name: Seq<char>) -> Option<Fragment>
    decreases pairs.len(),
{
    if pairs.len() == 0 {
        None
    } else if pairs[0].0 == name {
        Some(pairs[0].1)
    } else {
        lookup(pairs.drop_first(), name)
    }
}

/// The reason recorded for a placeholder whose name is bound to nothing.
pub open spec fn missing_reason(name: Seq<char>) -> Seq<char> {
    "missing variable: "@ + name
}

/// The notice left in the text for a placeholder whose name is bound to
/// nothing.
pub open spec fn missing_notice(name: Seq<char>) -> Seq<char> {
    name + " <- VARIABLE NOT FOUND   "@
}

/// Whether every placeholder among `pieces` is bound to a fragment that did
/// not fail.
pub open spec fn all_bound(pieces: Seq<Seq<char>>, pairs: Seq<(Seq<char>, Fragment)>) -> bool {
    forall|i: int|
        0 <= i < pieces.len() && is_placeholder(#[trigger] pieces[i]) ==> (lookup(
            pairs,
            placeholder_name(pieces[i]),
        ) matches Some(bound) && !bound.failed())
}

/// The text that stands for one piece where its name, if it is a
/// placeholder, is bound.
pub open spec fn piece_text(piece: Seq<char>, pairs: Seq<(Seq<char>, Fragment)>) -> Seq<char> {
    if is_placeholder(piece) {
        match lookup(pairs, placeholder_name(piece)) {
            Some(bound) => bound.text,
            None => Seq::empty(),
        }
    } else if is_brace_escape(piece) {
        seq!['{']
    } else {
        piece
    }
}

/// The texts that stand for `pieces`, one after the other.
pub open spec fn filled(pieces: Seq<Seq<char>>, pairs: Seq<(Seq<char>, Fragment)>) -> Seq<char>
    decreases pieces.len(),
{
    if pieces.len() == 0 {
        Seq::empty()
    } else {
        filled(pieces.drop_last(), pairs) + piece_text(pieces.last(), pairs)
    }
}

impl Fragment {
    /// One piece of a template appended. A placeholder is replaced by the
    /// fragment bound to its name, pushed like any fragment; where no pair
    /// has that name, a failure is injected and the name is left in the text
    /// with a notice. The escaped brace becomes `{`. Any other piece is
    /// copied.
    pub open spec fn expand_piece(
        self,
        piece: Seq<char>,
        pairs: Seq<(Seq<char>, Fragment)>,
    ) -> Fragment {
        if is_placeholder(piece) {
            let name = placeholder_name(piece);
            match lookup(pairs, name) {
                Some(bound) => self.push(bound),
                None => self.fail(missing_reason(name)).raw(missing_notice(name)),
            }
        } else if is_brace_escape(piece) {
            self.raw(seq!['{'])
        } else {
            self.raw(piece)
        }
    }

    /// The pieces of a template appended one after the other.
    pub open spec fn expand(
        self,
        pieces: Seq<Seq<char>>,
        pairs: Seq<(Seq<char>, Fragment)>,
    ) -> Fragment
        decreases pieces.len(),
    {
        if pieces.len() == 0 {
            self
        } else {
            self.expand(pieces.drop_last(), pairs).expand_piece(pieces.last(), pairs)
        }
    }

    /// The template `text` appended with its placeholders filled: `text` is
    /// cut into its pieces, and the pieces are expanded one after the other.
    pub open spec fn fill(self, text: Seq<char>, pairs: Seq<(Seq<char>, Fragment)>) -> Fragment {
        self.expand(template_pieces(text), pairs)
    }

    /// A template filled in: the text is taken as the template and replaced
    /// by what it is filled to; the failure recorded before stays.
    pub open spec fn format(self, pairs: Seq<(Seq<char>, Fragment)>) -> Fragment {
        Fragment { text: Seq::empty(), failure: self.failure }.fill(self.text, pairs)
    }
}

/// What a template is written from: ordinary text, a placeholder for a
/// name, or an escaped brace.
pub ghost enum Part {
    /// Ordinary text.
    Text(Seq<char>),
    /// The placeholder `{name}`.
    Hole(Seq<char>),
    /// The escaped brace `\{`.
    Brace,
}

/// How a part is written in a template.
pub open spec fn part_written(part: Part) -> Seq<char> {
    match part {
        Part::Text(text) => text,
        Part::Hole(name) => seq!['{'] + name + seq!['}'],
        Part::Brace => seq!['\\', '{'],
    }
}

/// What a part becomes where its name, if it is a placeholder, is bound.
pub open spec fn part_replaced(part: Part, pairs: Seq<(Seq<char>, Fragment)>) -> Seq<char> {
    match part {
        Part::Text(text) => text,
        Part::Hole(name) => match lookup(pairs, name) {
            Some(bound) => bound.text,
            None => Seq::empty(),
        },
        Part::Brace => seq!['{'],
    }
}

/// Whether a part can be written so that it is read back as what it is:
/// ordinary text holds no `{` and no backslash; the name of a placeholder is
/// not empty, holds no `}`, and is bound to a fragment that did not fail.
pub open spec fn part_fits(part: Part, pairs: Seq<(Seq<char>, Fragment)>) -> bool {
    match part {
        Part::Text(text) => forall|k: int|
            0 <= k < text.len() ==> text[k] != '{' && text[k] != '\\',
        Part::Hole(name) => {
            &&& name.len() > 0
            &&& forall|k: int| 0 <= k < name.len() ==> name[k] != '}'
            &&& lookup(pairs, name) matches Some(bound) && !bound.failed()
        },
        Part::Brace => true,
    }
}

/// The template that `parts` are written to, one after the other.
pub open spec fn written(parts: Seq<Part>) -> Seq<char>
    decreases parts.len(),
{
    if parts.len() == 0 {
        Seq::empty()
    } else {
        part_written(parts[0]) + written(parts.drop_first())
    }
}

/// What `parts` become, one after the other.
pub open spec fn replaced(parts: Seq<Part>, pairs: Seq<(Seq<char>, Fragment)>) -> Seq<char>
    decreases parts.len(),
{
    if parts.len() == 0 {
        Seq::empty()
    } else {
        part_replaced(parts[0], pairs) + replaced(parts.drop_first(), pairs)
    }
}

/// One more piece is expanded after the pieces before it.
pub proof fn lemma_expand_step(
    start: Fragment,
    pieces: Seq<Seq<char>>,
    pairs: Seq<(Seq<char>, Fragment)>,
    i: int,
)
    requires
        0 <= i < pieces.len(),
    ensures
        start.expand(pieces.take(0), pairs) == start,
        start.expand(pieces.take(i + 1), pairs) == start.expand(pieces.take(i), pairs).expand_piece(
            pieces[i],
            pairs,
        ),
{
    assert(pieces.take(i + 1).drop_last() == pieces.take(i));
}

/// Skipping pairs of another name does not change what a name is bound to.
pub proof fn lemma_lookup_skip(pairs: Seq<(Seq<char>, Fragment)>, name: Seq<char>, i: int)
    requires
        0 <= i <= pairs.len(),
        forall|k: int| 0 <= k < i ==> (#[trigger] pairs[k]).0 != name,
    ensures
        lookup(pairs, name) == lookup(pairs.skip(i), name),
    decreases i,
{
    if i == 0 {
        assert(pairs.skip(0) == pairs);
    } else {
        lemma_lookup_skip(pairs, name, i - 1);
        let rest = pairs.skip(i - 1);
        assert(rest[0] == pairs[i - 1]);
        assert(rest.drop_first() == pairs.skip(i));
    }
}

impl SQL {
    /// Appends one piece of a template.
    fn expand_piece(self, piece: &str, values: &Vec<(&str, SQL)>) -> (result: SQL)
        ensures
            result@ == self@.expand_piece(piece@, bindings(values@)),
    {
        let mut result = self;
        let ghost pairs = bindings(values@);
        let n = piece.unicode_len();
        if n >= 2 && piece.get_char(0) == '{' && piece.get_char(n - 1) == '}' {
            let name = piece.substring_char(1, n - 1);
            let mut i: usize = 0;
            while i < values.len()
                invariant
                    i <= values.len(),
                    pairs == bindings(values@),
                    result@ == self@,
                    is_placeholder(piece@),
                    name@ == placeholder_name(piece@),
                    forall|k: int| 0 <= k < i ==> (#[trigger] pairs[k]).0 != name@,
                decreases values.len() - i,
            {
                if same_text(values[i].0, name) {
                    proof {
                        lemma_lookup_skip(pairs, name@, i as int);
                        assert(pairs.skip(i as int)[0] == pairs[i as int]);
                        assert(pairs[i as int] == (values[i as int].0@, values[i as int].1@));
                    }
                    return result.push_sql(&values[i].1);
                }
                i += 1;
            }
            proof {
                lemma_lookup_skip(pairs, name@, pairs.len() as int);
            }
            let mut reason = String::from_str("missing variable: ");
            reason.append(name);
            result.fail(reason.as_str());
            result.write_is_safe_as_is(name);
            result.write_is_safe_as_is(" <- VARIABLE NOT FOUND   ");
            assert(result@.text == self@.fail(missing_reason(name@)).text + (name@
                + " <- VARIABLE NOT FOUND   "@));
            result
        } else if n == 2 && piece.get_char(0) == '\\' && piece.get_char(1) == '{' {
            assert(piece@ == seq!['\\', '{']);
            result.write_char('{');
            result
        } else {
            assert(!is_brace_escape(piece@));
            result.write_is_safe_as_is(piece);
            result
        }
    }

    /// Appends the pieces of a template one after the other: the text of a
    /// placeholder `{name}` is replaced by the fragment of the first pair
    /// named `name`, the piece `\{` becomes `{`, and any other piece is
    /// copied.
    pub fn substitute(self, pieces: &Vec<String>, values: &Vec<(&str, SQL)>) -> (result: SQL)
        ensures
            result@ == self@.expand(texts(pieces@), bindings(values@)),
    {
        let ghost all = texts(pieces@);
        let mut result = self;
        for i in 0..pieces.len()
            invariant
                all == texts(pieces@),
                result@ == self@.expand(all.take(i as int), bindings(values@)),
        {
            proof {
                lemma_expand_step(self@, all, bindings(values@), i as int);
            }
            result = result.expand_piece(pieces[i].as_str(), values);
        }
        assert(all.take(pieces.len() as int) == all);
        result
    }

    /// Takes the text of this fragment as a template and replaces it by the
    /// template filled from `values`: each placeholder `{name}` gives way to
    /// the fragment of the first pair named `name`, each `\{` to `{`, and
    /// the rest is copied.
    pub fn format(self, values: Vec<(&str, SQL)>) -> (result: SQL)
        ensures
            result@ == self@.format(bindings(values@)),
    {
        let pieces = cut(self.raw_text());
        self.restart(4000).substitute(&pieces, &values)
    }
}

} // verus!
