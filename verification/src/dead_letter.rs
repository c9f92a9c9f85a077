//! The dead-letter log: one JSON line for each command that could not be delivered.

use crate::command::{CommandEnvelope, CommandEnvelopeView};
use crate::text::prefixed;
use vstd::prelude::*;
use vstd::string::*;

verus! {

/// An entry in the dead-letter log, recording a failed dispatch attempt.
#[derive(Debug)]
pub struct DeadLetterEntry {
    /// The command envelope that failed to dispatch.
    pub envelope: CommandEnvelope,
    /// Human-readable error message.
    pub error: String,
    /// Unix timestamp (seconds since epoch) of the failure.
    pub ts: u64,
}

/// The contents of a [`DeadLetterEntry`].
#[verifier::ext_equal]
pub struct DeadLetterEntryView {
    pub envelope: CommandEnvelopeView,
    pub error: Seq<char>,
    pub ts: u64,
}

impl View for DeadLetterEntry {
    type V = DeadLetterEntryView;

    open spec fn view(&self) -> DeadLetterEntryView {
        DeadLetterEntryView { envelope: self.envelope@, error: self.error@, ts: self.ts }
    }
}

impl DeadLetterEntry {
    /// The entry for an envelope that failed with the given message at the given time.
    pub fn new(envelope: CommandEnvelope, error: &str, ts: u64) -> (entry: Self)
        ensures
            entry@ == (DeadLetterEntryView { envelope: envelope@, error: error@, ts }),
    {
        DeadLetterEntry { envelope, error: error.to_owned(), ts }
    }
}

/// The line of the log that holds an entry whose JSON form is `json`.
pub open spec fn line_of(json: Seq<char>) -> Seq<char> {
    json.push('\n')
}

/// The text of a log whose entries have the given JSON forms, in order.
pub open spec fn log_text(entries: Seq<Seq<char>>) -> Seq<char>
    decreases entries.len(),
{
    if entries.len() == 0 {
        Seq::empty()
    } else {
        line_of(entries[0]) + log_text(entries.drop_first())
    }
}

/// How many line breaks a text holds.
pub open spec fn line_breaks(text: Seq<char>) -> nat {
    text.filter(|c: char| c == '\n').len()
}

/// Whether a text holds no line break.
fn is_one_line(text: &str) -> (one_line: bool)
    ensures
        one_line == !text@.contains('\n'),
{
    for c in chars: text.chars()
        invariant
            chars.seq() == text@,
            forall|i: int| 0 <= i < chars.index() ==> #[trigger] text@[i] != '\n',
    {
        if c == '\n' {
            assert(text@[chars.index() as int] == '\n');
            return false;
        }
    }
    true
}

/// The line to append to the log for an entry whose JSON form is `json`; `None` for a text
/// that is not one line, which would not be one entry of the log.
pub fn dead_letter_line(json: &str) -> (line: Option<String>)
    ensures
        match line {
            Some(text) => !json@.contains('\n') && text@ == line_of(json@),
            None => json@.contains('\n'),
        },
{
    if !is_one_line(json) {
        return None;
    }
    proof {
        reveal_strlit("\n");
    }
    let line = prefixed(json, "\n");
    assert(line@ == line_of(json@));
    Some(line)
}

/// Appending the line of an entry to a log gives the log with that entry at its end.
pub proof fn law_appending_a_line_adds_an_entry(entries: Seq<Seq<char>>, json: Seq<char>)
    ensures
        log_text(entries.push(json)) == log_text(entries) + line_of(json),
    decreases entries.len(),
{
    let more = entries.push(json);
    if entries.len() == 0 {
        assert(more.drop_first() == Seq::<Seq<char>>::empty());
        reveal_with_fuel(log_text, 2);
        assert(log_text(more) == log_text(entries) + line_of(json));
    } else {
        let rest = entries.drop_first();
        assert(more.drop_first() == rest.push(json));
        law_appending_a_line_adds_an_entry(rest, json);
        assert(line_of(entries[0]) + (log_text(rest) + line_of(json)) == (line_of(entries[0])
            + log_text(rest)) + line_of(json));
    }
}

/// A log has as many lines as entries: each is one line, and every line ends.
pub proof fn law_each_entry_is_one_line(entries: Seq<Seq<char>>)
    requires
        forall|i: int| 0 <= i < entries.len() ==> !(#[trigger] entries[i]).contains('\n'),
    ensures
        line_breaks(log_text(entries)) == entries.len(),
        entries.len() > 0 ==> log_text(entries).last() == '\n',
    decreases entries.len(),
{
    let is_break = |c: char| c == '\n';
    if entries.len() == 0 {
        assert(log_text(entries).filter(is_break).len() == 0) by {
            reveal(Seq::filter);
        }
    } else {
        let (first, rest) = (entries[0], entries.drop_first());
        assert(!first.contains('\n'));
        assert forall|i: int| 0 <= i < rest.len() implies !(#[trigger] rest[i]).contains('\n') by {
            assert(!entries[i + 1].contains('\n'));
        }
        law_each_entry_is_one_line(rest);
        assert(line_of(first).filter(is_break).len() == 1) by {
            reveal(Seq::filter);
            assert(line_of(first).drop_last() == first);
            assert forall|i: int| 0 <= i < first.len() implies !is_break(#[trigger] first[i]) by {
                if first[i] == '\n' {
                    assert(first.contains('\n'));
                }
            }
            first.lemma_all_neg_filter_empty(is_break);
        }
        Seq::filter_distributes_over_add(line_of(first), log_text(rest), is_break);
        if rest.len() == 0 {
            assert(log_text(entries) == line_of(first));
        }
    }
}

/// A log can be read back: where no entry holds a line break, its text tells the entries
/// apart.
pub proof fn law_log_tells_entries_apart(one: Seq<Seq<char>>, other: Seq<Seq<char>>)
    requires
        forall|i: int| 0 <= i < one.len() ==> !(#[trigger] one[i]).contains('\n'),
        forall|i: int| 0 <= i < other.len() ==> !(#[trigger] other[i]).contains('\n'),
        log_text(one) == log_text(other),
    ensures
        one == other,
    decreases one.len(),
{
    if one.len() == 0 {
        if other.len() > 0 {
            assert(log_text(other).len() > 0);
        }
        assert(one == other);
    } else if other.len() == 0 {
        assert(log_text(one).len() > 0);
    } else {
        let text = log_text(one);
        let (a, b) = (one[0], other[0]);
        assert(text[a.len() as int] == '\n');
        assert(text[b.len() as int] == '\n');
        assert(forall|i: int| 0 <= i < a.len() ==> text[i] == a[i]);
        assert(forall|i: int| 0 <= i < b.len() ==> text[i] == b[i]);
        if a.len() < b.len() {
            assert(b[a.len() as int] == '\n');
            assert(b.contains('\n'));
        }
        if b.len() < a.len() {
            assert(a[b.len() as int] == '\n');
            assert(a.contains('\n'));
        }
        assert(a == b);
        let (rest, others) = (one.drop_first(), other.drop_first());
        assert(log_text(rest) == text.skip((a.len() + 1) as int));
        assert(log_text(others) == text.skip((a.len() + 1) as int));
        assert forall|i: int| 0 <= i < rest.len() implies !(#[trigger] rest[i]).contains('\n') by {
            assert(!one[i + 1].contains('\n'));
        }
        assert forall|i: int| 0 <= i < others.len() implies !(
        #[trigger] others[i]).contains('\n') by {
            assert(!other[i + 1].contains('\n'));
        }
        law_log_tells_entries_apart(rest, others);
        assert(one == seq![a] + rest);
        assert(other == seq![b] + others);
    }
}

/// What is said of an entry is said of its fields; its line is its JSON form and a line
/// break; and a log is the lines of its entries, one after the other.
pub proof fn law_a_log_is_the_lines_of_its_entries(
    entry: DeadLetterEntry,
    json: Seq<char>,
    entries: Seq<Seq<char>>,
)
    ensures
        entry@.envelope == entry.envelope@,
        entry@.error == entry.error@,
        entry@.ts == entry.ts,
        line_of(json) == json + seq!['\n'],
        log_text(entries) == entries.map_values(|text: Seq<char>| text + seq!['\n']).flatten(),
    decreases entries.len(),
{
    let lines = entries.map_values(|text: Seq<char>| text + seq!['\n']);
    assert(line_of(json) == json + seq!['\n']);
    if entries.len() == 0 {
        assert(lines.flatten() == Seq::<char>::empty());
    } else {
        let rest = entries.drop_first();
        law_a_log_is_the_lines_of_its_entries(entry, json, rest);
        assert(lines.drop_first() == rest.map_values(|text: Seq<char>| text + seq!['\n']));
        assert(lines[0] == line_of(entries[0]));
        assert(lines.flatten() == lines[0] + lines.drop_first().flatten());
    }
}

} // verus!
