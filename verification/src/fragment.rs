//! The mathematical model of a SQL fragment: the text accumulated so far and
//! the failure message recorded so far, if any.

use vstd::prelude::*;

verus! {

/// What a fragment is worth: its accumulated text and its sticky failure.
pub ghost struct Fragment {
    /// The text accumulated so far.
    pub text: Seq<char>,
    /// The reasons recorded so far, joined by `", "`; `None` while nothing failed.
    pub failure: Option<Seq<char>>,
}

/// The separator placed between two recorded failure reasons.
pub open spec fn reason_separator() -> Seq<char> {
    seq![',', ' ']
}

/// The token that an explicit failure leaves in the text, so that a text read
/// without looking at the failure still shows that it is broken.
pub open spec fn poison_marker() -> Seq<char> {
    "<<<FAILURE "@
}

/// The monotonic rule: a first reason becomes the failure, a later one is
/// appended after `", "`. A failure is never cleared and never replaced.
pub open spec fn note(failure: Option<Seq<char>>, reason: Seq<char>) -> Option<Seq<char>> {
    match failure {
        None => Some(reason),
        Some(earlier) => Some(earlier + reason_separator() + reason),
    }
}

/// Records every failure of `later` after those of `earlier`.
pub open spec fn merge(earlier: Option<Seq<char>>, later: Option<Seq<char>>) -> Option<Seq<char>> {
    match later {
        None => earlier,
        Some(reason) => note(earlier, reason),
    }
}

/// Records `reasons` one after the other, first to last.
pub open spec fn note_all(failure: Option<Seq<char>>, reasons: Seq<Seq<char>>) -> Option<Seq<char>>
    decreases reasons.len(),
{
    if reasons.len() == 0 {
        failure
    } else {
        note(note_all(failure, reasons.drop_last()), reasons.last())
    }
}

/// `reasons` written one after the other with `", "` between two neighbours.
pub open spec fn comma_joined(reasons: Seq<Seq<char>>) -> Seq<char>
    decreases reasons.len(),
{
    if reasons.len() == 0 {
        Seq::empty()
    } else if reasons.len() == 1 {
        reasons[0]
    } else {
        comma_joined(reasons.drop_last()) + reason_separator() + reasons.last()
    }
}

impl Fragment {
    /// The fragment with no text and no failure.
    pub open spec fn empty() -> Fragment {
        Fragment { text: Seq::empty(), failure: None }
    }

    /// A fragment that holds `text` and no failure.
    pub open spec fn of_text(text: Seq<char>) -> Fragment {
        Fragment { text, failure: None }
    }

    /// Whether anything failed while this fragment was put together.
    pub open spec fn failed(self) -> bool {
        self.failure is Some
    }

    /// `extra` appended to the text as it is.
    pub open spec fn raw(self, extra: Seq<char>) -> Fragment {
        Fragment { text: self.text + extra, failure: self.failure }
    }

    /// `reason` recorded by the monotonic rule; the text stays as it is.
    pub open spec fn record(self, reason: Seq<char>) -> Fragment {
        Fragment { text: self.text, failure: note(self.failure, reason) }
    }

    /// An explicit failure: `reason` is recorded and the poison marker is
    /// appended to the text.
    pub open spec fn fail(self, reason: Seq<char>) -> Fragment {
        Fragment { text: self.text + poison_marker(), failure: note(self.failure, reason) }
    }

    /// `other` appended: its failure, if it has one, is injected first, then
    /// its text follows.
    pub open spec fn push(self, other: Fragment) -> Fragment {
        match other.failure {
            Some(reason) => self.fail(reason).raw(other.text),
            None => self.raw(other.text),
        }
    }

    /// `items` appended in order.
    pub open spec fn push_all(self, items: Seq<Fragment>) -> Fragment
        decreases items.len(),
    {
        if items.len() == 0 {
            self
        } else {
            self.push_all(items.drop_last()).push(items.last())
        }
    }

    /// `items` appended in order, with `delimit` appended between two
    /// neighbours, never before the first nor after the last.
    pub open spec fn append_join(self, delimit: Fragment, items: Seq<Fragment>) -> Fragment
        decreases items.len(),
    {
        if items.len() == 0 {
            self
        } else if items.len() == 1 {
            self.push(items[0])
        } else {
            self.append_join(delimit, items.drop_last()).push(delimit).push(items.last())
        }
    }
}

/// The failure messages of those of `items` that failed, in their order.
pub open spec fn reasons_of(items: Seq<Fragment>) -> Seq<Seq<char>>
    decreases items.len(),
{
    if items.len() == 0 {
        Seq::empty()
    } else {
        match items.last().failure {
            Some(reason) => reasons_of(items.drop_last()).push(reason),
            None => reasons_of(items.drop_last()),
        }
    }
}

/// `items` with `delimit` between two neighbours.
pub open spec fn interleaved(delimit: Fragment, items: Seq<Fragment>) -> Seq<Fragment>
    decreases items.len(),
{
    if items.len() == 0 {
        Seq::empty()
    } else if items.len() == 1 {
        seq![items[0]]
    } else {
        interleaved(delimit, items.drop_last()).push(delimit).push(items.last())
    }
}

/// Whether `later` holds everything that `earlier` holds, at its start: a
/// failure that was recorded is still there, and still comes first.
pub open spec fn keeps(earlier: Option<Seq<char>>, later: Option<Seq<char>>) -> bool {
    match earlier {
        None => true,
        Some(old_reasons) => later matches Some(new_reasons) && old_reasons.is_prefix_of(
            new_reasons,
        ),
    }
}

/// One more item adds the delimiter, unless it is the first, and the item.
pub proof fn lemma_append_join_step(start: Fragment, delimit: Fragment, items: Seq<Fragment>, i: int)
    requires
        0 <= i < items.len(),
    ensures
        start.append_join(delimit, items.take(0)) == start,
        start.append_join(delimit, items.take(i + 1)) == if i == 0 {
            start.push(items[i])
        } else {
            start.append_join(delimit, items.take(i)).push(delimit).push(items[i])
        },
{
    assert(items.take(i + 1).drop_last() == items.take(i));
}

} // verus!
