//! The fragment builder.

use vstd::prelude::*;
use vstd::string::StringExecFns;
use crate::decimal::{decimal, write_signed};
use crate::error::BuildError;
use crate::escape::{
    has_nul, has_trigger, has_unplain, is_digit, is_trigger, lemma_has_nul_step,
    lemma_has_trigger_step, lemma_has_unplain_step, lemma_literal_body_step,
    lemma_quoted_body_step, literal_body, literal_char, quoted_body, quoted_char,
};
use crate::fragment::{lemma_append_join_step, reason_separator, Fragment};
use crate::strings::string_with_capacity;

verus! {

/// A SQL fragment under construction: the text built so far, and the failure
/// recorded so far, which stays with the fragment until it is built.
#[derive(Debug)]
pub struct SQL {
    value: String,
    failure: Option<String>,
}

/// The fragments that `items` stand for, in the same order.
pub open spec fn fragments(items: Seq<SQL>) -> Seq<Fragment> {
    items.map_values(|item: SQL| item@)
}

impl View for SQL {
    type V = Fragment;

    closed spec fn view(&self) -> Fragment {
        Fragment {
            text: self.value@,
            failure: match self.failure {
                Some(f) => Some(f@),
                None => None,
            },
        }
    }
}

impl SQL {
    /// An empty fragment with room for `capacity` bytes of text.
    pub fn new(capacity: usize) -> (result: SQL)
        requires
            capacity <= isize::MAX,
        ensures
            result@ == Fragment::empty(),
    {
        SQL { value: string_with_capacity(capacity), failure: None }
    }

    /// The integer `value` in decimal, in a text with room for `capacity`
    /// bytes.
    pub(crate) fn number(value: i64, capacity: usize) -> (result: SQL)
        requires
            capacity <= isize::MAX,
        ensures
            result@ == Fragment::of_text(decimal(value as int)),
    {
        let mut result = SQL::new(capacity);
        write_signed(&mut result.value, value);
        assert(Seq::<char>::empty() + decimal(value as int) == decimal(value as int));
        result
    }

    /// Appends `value` as it is.
    pub(crate) fn write_is_safe_as_is(&mut self, value: &str)
        ensures
            final(self)@ == old(self)@.raw(value@),
    {
        self.value.append(value);
    }

    /// Appends the one character `c` as it is.
    pub(crate) fn write_char(&mut self, c: char)
        ensures
            final(self)@ == old(self)@.raw(seq![c]),
    {
        self.value.push(c);
        assert(self.value@ == old(self).value@ + seq![c]);
    }

    /// The text accumulated so far, whether or not anything failed: after a
    /// failure it shows the poison marker.
    pub fn raw_text(&self) -> (text: &str)
        ensures
            text@ == self@.text,
    {
        self.value.as_str()
    }

    /// Drops the text and keeps the failure; the new text gets room for
    /// `capacity` bytes.
    pub(crate) fn restart(self, capacity: usize) -> (result: SQL)
        requires
            capacity <= isize::MAX,
        ensures
            result@ == (Fragment { text: Seq::empty(), failure: self@.failure }),
    {
        SQL { value: string_with_capacity(capacity), failure: self.failure }
    }

    /// Records `reason` without touching the text.
    pub(crate) fn record(&mut self, reason: &str)
        ensures
            final(self)@ == old(self)@.record(reason@),
    {
        match &mut self.failure {
            Some(f) => {
                proof {
                    reveal_strlit(", ");
                }
                f.append(", ");
                f.append(reason);
                assert(f@ == old(self)@.failure->0 + reason_separator() + reason@);
            },
            None => {
                self.failure = Some(String::from_str(reason));
            },
        }
    }

    /// Injects a failure: `failure` is recorded after the reasons recorded
    /// before it, and the poison marker is appended to the text.
    pub fn fail(&mut self, failure: &str)
        ensures
            final(self)@ == old(self)@.fail(failure@),
    {
        self.record(failure);
        self.value.append("<<<FAILURE ");
    }

    /// Appends `value`: its failure, if it has one, is injected into this
    /// fragment, then its text follows.
    pub fn push_sql(self, value: &SQL) -> (result: SQL)
        ensures
            result@ == self@.push(value@),
    {
        let mut result = self;
        if let Some(failure) = &value.failure {
            result.fail(failure.as_str());
        }
        result.value.append(value.value.as_str());
        result
    }

    /// Appends `values` in order, with `delimit` between two neighbours.
    pub fn append_join(self, delimit: &SQL, values: &Vec<SQL>) -> (result: SQL)
        ensures
            result@ == self@.append_join(delimit@, fragments(values@)),
    {
        let ghost items = fragments(values@);
        let mut result = self;
        let mut need_delimit = false;
        for i in 0..values.len()
            invariant
                items == fragments(values@),
                need_delimit == (i > 0),
                result@ == self@.append_join(delimit@, items.take(i as int)),
        {
            proof {
                lemma_append_join_step(self@, delimit@, items, i as int);
            }
            if need_delimit {
                result = result.push_sql(delimit);
            }
            result = result.push_sql(&values[i]);
            need_delimit = true;
        }
        assert(items.take(values.len() as int) == items);
        result
    }

    /// Ends the fragment: its text where nothing failed, else the error that
    /// carries every recorded reason.
    pub fn build(self) -> (result: Result<String, BuildError>)
        ensures
            match self@.failure {
                Some(reasons) => result matches Err(error) && error@ == reasons,
                None => result matches Ok(text) && text@ == self@.text,
            },
    {
        match self.failure {
            Some(reasons) => Err(BuildError::new(reasons)),
            None => Ok(self.value),
        }
    }

    /// The text of the fragment where nothing failed, else the error that
    /// carries every recorded reason; the fragment stays in use.
    pub fn build_borrowed(&self) -> (result: Result<&String, BuildError>)
        ensures
            match self@.failure {
                Some(reasons) => result matches Err(error) && error@ == reasons,
                None => result matches Ok(text) && text@ == self@.text,
            },
    {
        match &self.failure {
            Some(reasons) => Err(BuildError::new(reasons.clone())),
            None => Ok(&self.value),
        }
    }

    /// Appends `value` as an identifier.
    pub(crate) fn escape_identifier(&mut self, value: &str)
        ensures
            final(self)@ == old(self)@.escape_identifier(value@),
    {
        let mut at_start = true;
        let mut starts_with_digit = false;
        let mut any_to_escape = false;
        for c in it: value.chars()
            invariant
                it.seq() == value@,
                at_start == (it.index() == 0),
                starts_with_digit == (it.index() > 0 && is_digit(value@[0])),
                any_to_escape == has_unplain(value@.take(it.index())),
        {
            proof {
                lemma_has_unplain_step(value@, it.index());
            }
            let digit = '0' <= c && c <= '9';
            if at_start {
                starts_with_digit = digit;
                at_start = false;
            }
            if !(('a' <= c && c <= 'z') || digit || c == '_') {
                any_to_escape = true;
            }
        }
        assert(value@.take(value@.len() as int) == value@);

        if at_start {
            self.record("empty identifier");
        } else if starts_with_digit || any_to_escape {
            self.value.push('"');
            let ghost opened = self.value@;
            let mut saw_nul = false;
            for c in it: value.chars()
                invariant
                    it.seq() == value@,
                    saw_nul == has_nul(value@.take(it.index())),
                    self.value@ == opened + quoted_body(value@.take(it.index())),
                    self.failure == old(self).failure,
            {
                let ghost before = self.value@;
                let ghost done = quoted_body(value@.take(it.index()));
                proof {
                    lemma_has_nul_step(value@, it.index());
                    lemma_quoted_body_step(value@, it.index());
                    reveal_strlit("\"\"");
                    reveal_strlit("\\b");
                    reveal_strlit("\\f");
                    reveal_strlit("\\n");
                    reveal_strlit("\\r");
                    reveal_strlit("\\t");
                }
                match c {
                    '\0' => {
                        saw_nul = true;
                    },
                    '"' => self.value.append("\"\""),
                    '\x08' => self.value.append("\\b"),
                    '\x0C' => self.value.append("\\f"),
                    '\n' => self.value.append("\\n"),
                    '\r' => self.value.append("\\r"),
                    '\t' => self.value.append("\\t"),
                    c => self.value.push(c),
                }
                assert(self.value@ == before + quoted_char(c));
                assert(self.value@ == opened + (done + quoted_char(c)));
            }
            self.value.push('"');
            assert(self.value@ == old(self).value@ + (seq!['"'] + quoted_body(value@) + seq!['"']));
            if saw_nul {
                self.record("string contains the null character");
            }
        } else {
            self.value.append(value);
        }
    }

    /// Appends the string literal that stands for `value`.
    pub(crate) fn escape_string(&mut self, value: &str)
        ensures
            final(self)@ == old(self)@.escape_string(value@),
    {
        let mut any_to_escape = false;
        for c in it: value.chars()
            invariant
                it.seq() == value@,
                any_to_escape == has_trigger(value@.take(it.index())),
        {
            proof {
                lemma_has_trigger_step(value@, it.index());
            }
            if c == '\0' || c == '\'' || c == '\x08' || c == '\x0C' || c == '\n' || c == '\r'
                || c == '\t' {
                any_to_escape = true;
            }
        }
        assert(value@.take(value@.len() as int) == value@);

        if any_to_escape {
            proof {
                reveal_strlit("E'");
            }
            self.value.append("E'");
            let ghost opened = self.value@;
            let mut saw_nul = false;
            for c in it: value.chars()
                invariant
                    it.seq() == value@,
                    saw_nul == has_nul(value@.take(it.index())),
                    self.value@ == opened + literal_body(value@.take(it.index())),
                    self.failure == old(self).failure,
            {
                let ghost before = self.value@;
                let ghost done = literal_body(value@.take(it.index()));
                proof {
                    lemma_has_nul_step(value@, it.index());
                    lemma_literal_body_step(value@, it.index());
                    reveal_strlit("\\\\");
                    reveal_strlit("\\'");
                    reveal_strlit("\\b");
                    reveal_strlit("\\f");
                    reveal_strlit("\\n");
                    reveal_strlit("\\r");
                    reveal_strlit("\\t");
                }
                match c {
                    '\0' => {
                        saw_nul = true;
                    },
                    '\\' => self.value.append("\\\\"),
                    '\'' => self.value.append("\\'"),
                    '\x08' => self.value.append("\\b"),
                    '\x0C' => self.value.append("\\f"),
                    '\n' => self.value.append("\\n"),
                    '\r' => self.value.append("\\r"),
                    '\t' => self.value.append("\\t"),
                    c => self.value.push(c),
                }
                assert(self.value@ == before + literal_char(c));
                assert(self.value@ == opened + (done + literal_char(c)));
            }
            self.value.push('\'');
            assert(self.value@ == old(self).value@ + (seq!['E', '\''] + literal_body(value@) + seq![
                '\'',
            ]));
            if saw_nul {
                self.record("Zero character in string");
            }
        } else {
            self.value.push('\'');
            self.value.append(value);
            self.value.push('\'');
            assert(self.value@ == old(self).value@ + (seq!['\''] + value@ + seq!['\'']));
            assert(!has_nul(value@)) by {
                if has_nul(value@) {
                    let k = choose|k: int| 0 <= k < value@.len() && #[trigger] value@[k] == '\0';
                    assert(is_trigger(value@[k]));
                }
            }
        }
    }
}

} // verus!
