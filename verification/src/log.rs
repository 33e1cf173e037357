use crate::text::{decimal, decimal_string};
use crate::types::{LogIndex, Term};
use vstd::prelude::*;
use vstd::string::*;

verus! {

/// One command of the replicated log, with the term in which a leader
/// received it and its position.
#[derive(Debug, Clone, PartialEq, Eq)]
pub struct LogEntry {
    pub term: Term,
    pub index: LogIndex,
    pub command: String,
}

/// The value of a log entry.
pub struct LogEntryView {
    pub term: Term,
    pub index: LogIndex,
    pub command: Seq<char>,
}

impl View for LogEntry {
    type V = LogEntryView;

    open spec fn view(&self) -> LogEntryView {
        LogEntryView { term: self.term, index: self.index, command: self.command@ }
    }
}

impl LogEntry {
    /// A copy of the entry.
    pub(crate) fn duplicate(&self) -> (e: LogEntry)
        ensures
            e@ == self@,
    {
        LogEntry { term: self.term, index: self.index, command: self.command.clone() }
    }
}

/// The replicated log: its entries, and the index of the last one.
#[derive(Debug, Clone, PartialEq, Eq)]
pub struct Log {
    pub entries: Vec<LogEntry>,
    pub last_index: LogIndex,
}

/// The value of a log.
pub struct LogView {
    pub entries: Seq<LogEntryView>,
    pub last_index: LogIndex,
}

impl View for Log {
    type V = LogView;

    open spec fn view(&self) -> LogView {
        LogView { entries: entry_views(self.entries@), last_index: self.last_index }
    }
}

/// The values of a sequence of entries.
pub open spec fn entry_views(s: Seq<LogEntry>) -> Seq<LogEntryView> {
    s.map_values(|e: LogEntry| e@)
}

/// The text of the error that refuses an entry at `index`.
pub open spec fn invalid_index_text(index: LogIndex) -> Seq<char> {
    "Invalid log index: "@ + decimal(index as nat)
}

impl LogView {
    /// The entry that a lookup at `index` finds: the one at position
    /// `index - 1` of the entries, for an index from 1 to the last index
    /// for which such a position exists.
    pub open spec fn entry_at(self, index: LogIndex) -> Option<LogEntryView> {
        if 1 <= index <= self.last_index && index - 1 < self.entries.len() {
            Some(self.entries[index - 1])
        } else {
            None
        }
    }

    /// The term of the entry at `index`, if there is one.
    pub open spec fn term_at(self, index: LogIndex) -> Option<Term> {
        match self.entry_at(index) {
            Some(e) => Some(e.term),
            None => None,
        }
    }

    /// The term of the entry at `index`, or 0 where there is none.
    pub open spec fn term_or_zero(self, index: LogIndex) -> Term {
        match self.entry_at(index) {
            Some(e) => e.term,
            None => 0,
        }
    }

    /// A log is well formed when it holds exactly the entries 1 to
    /// `last_index`, each at the position that its index names.
    pub open spec fn well_formed(self) -> bool {
        &&& self.entries.len() == self.last_index
        &&& forall|i: int| 0 <= i < self.entries.len() ==> #[trigger] self.entries[i].index == i + 1
    }

    /// The log after a successful append of `e`.
    pub open spec fn appended(self, e: LogEntryView) -> LogView {
        LogView { entries: self.entries.push(e), last_index: e.index }
    }

    /// The log after `truncate(index)`.
    pub open spec fn truncated(self, index: LogIndex) -> LogView {
        if index > self.last_index || index < 1 {
            self
        } else {
            LogView {
                entries: if index - 1 <= self.entries.len() {
                    self.entries.subrange(0, index - 1)
                } else {
                    self.entries
                },
                last_index: (index - 1) as LogIndex,
            }
        }
    }
}

impl Log {
    /// An empty log.
    pub fn new() -> (log: Self)
        ensures
            log@.entries == Seq::<LogEntryView>::empty(),
            log@.last_index == 0,
            log@.well_formed(),
    {
        let log = Self { entries: Vec::new(), last_index: 0 };
        assert(log@.entries =~= Seq::<LogEntryView>::empty());
        log
    }

    /// Appends `entry` if its index follows the last index; refuses it
    /// otherwise and leaves the log as it was.
    pub fn append(&mut self, entry: LogEntry) -> (result: Result<(), String>)
        requires
            old(self).last_index < u64::MAX,
        ensures
            entry.index == old(self).last_index + 1 ==> result is Ok && final(self)@ == old(
                self,
            )@.appended(entry@),
            entry.index != old(self).last_index + 1 ==> final(self)@ == old(self)@ && (
            result matches Err(e) && e@ == invalid_index_text(entry.index)),
            final(self)@ == log_after(old(self)@, LogOp::Append(entry@)),
            old(self)@.well_formed() ==> final(self)@.well_formed(),
            old(self)@.well_formed() && result is Ok ==> final(self)@.entry_at(entry.index) == Some(
                entry@,
            ) && forall|i: LogIndex|
                i != entry.index ==> #[trigger] final(self)@.entry_at(i) == old(self)@.entry_at(i),
    {
        if entry.index != self.last_index + 1 {
            proof {
                reveal_strlit("Invalid log index: ");
            }
            let mut msg = String::from_str("Invalid log index: ");
            let digits = decimal_string(entry.index);
            msg.append(digits.as_str());
            return Err(msg);
        }
        self.last_index = entry.index;
        let ghost e = entry@;
        self.entries.push(entry);
        assert(self@.entries =~= old(self)@.entries.push(e));
        Ok(())
    }

    /// The entry at `index`, if there is one.
    pub fn get(&self, index: LogIndex) -> (result: Option<&LogEntry>)
        ensures
            match result {
                Some(e) => self@.entry_at(index) == Some(e@),
                None => self@.entry_at(index) is None,
            },
            self@.well_formed() ==> (result is Some <==> 1 <= index <= self@.last_index),
            self@.well_formed() ==> (result matches Some(e) ==> e.index == index),
    {
        if index > self.last_index || index < 1 {
            return None;
        }
        if index - 1 < self.entries.len() as u64 {
            let e = &self.entries[(index - 1) as usize];
            assert(self@.entries[index - 1] == e@);
            assert(self@.well_formed() ==> self@.entries[index - 1].index == (index - 1) + 1);
            Some(e)
        } else {
            None
        }
    }

    /// The index of the last entry.
    pub fn last_index(&self) -> (i: LogIndex)
        ensures
            i == self@.last_index,
    {
        self.last_index
    }

    /// Drops the entry at `index` and all after it, where `index` is from 1
    /// to the last index; does nothing otherwise.
    pub fn truncate(&mut self, index: LogIndex)
        ensures
            final(self)@ == old(self)@.truncated(index),
            final(self)@ == log_after(old(self)@, LogOp::Truncate(index)),
            old(self)@.well_formed() ==> final(self)@.well_formed(),
            old(self)@.well_formed() && 1 <= index <= old(self)@.last_index ==> {
                &&& final(self)@.last_index == index - 1
                &&& forall|i: LogIndex| #[trigger]
                    final(self)@.entry_at(i) == if i < index {
                        old(self)@.entry_at(i)
                    } else {
                        None
                    }
            },
    {
        if index > self.last_index || index < 1 {
            return;
        }
        if index - 1 <= self.entries.len() as u64 {
            self.entries.truncate((index - 1) as usize);
        }
        self.last_index = index - 1;
        assert(self@.entries =~= old(self)@.truncated(index).entries);
    }

    /// The term of the entry at `index`, if there is one.
    pub fn get_term(&self, index: LogIndex) -> (result: Option<Term>)
        ensures
            result == self@.term_at(index),
    {
        let entry = self.get(index)?;
        Some(entry.term)
    }

    /// The number of entries held.
    pub fn len(&self) -> (n: usize)
        ensures
            n == self@.entries.len(),
    {
        self.entries.len()
    }
}

/// A well-formed log holds as many entries as its last index, its last
/// entry is found at the last index, and nothing is found after it.
pub proof fn lemma_well_formed_ends(l: LogView)
    requires
        l.well_formed(),
    ensures
        l.entries.len() == l.last_index,
        l.last_index > 0 ==> l.entry_at(l.last_index) == Some(l.entries.last())
            && l.entries.last().index == l.last_index,
        l.last_index < u64::MAX ==> l.entry_at((l.last_index + 1) as LogIndex) is None,
{
    if l.last_index > 0 {
        assert(l.entries[l.entries.len() - 1].index == (l.entries.len() - 1) + 1);
    }
}

/// Truncating at the index of the entry just appended restores the log,
/// and truncating at 0 or past the last index changes nothing.
pub proof fn lemma_append_then_truncate(l: LogView, e: LogEntryView, i: LogIndex)
    requires
        l.well_formed(),
    ensures
        e.index == l.last_index + 1 ==> l.appended(e).truncated(e.index) == l,
        i == 0 || i > l.last_index ==> l.truncated(i) == l,
{
    if e.index == l.last_index + 1 {
        assert(l.appended(e).truncated(e.index).entries =~= l.entries);
    }
}

/// How the number of entries of a well-formed log moves: an accepted
/// append adds one (a refused one leaves the log as it was); a truncate at
/// an index from 1 to the last leaves one less than that index; any other
/// truncate changes nothing. The number always equals the last index.
pub proof fn lemma_lengths(l: LogView, e: LogEntryView, i: LogIndex)
    requires
        l.well_formed(),
    ensures
        l.entries.len() == l.last_index,
        e.index == l.last_index + 1 ==> l.appended(e).entries.len() == l.entries.len() + 1
            && l.appended(e).entries.len() == l.appended(e).last_index,
        1 <= i <= l.last_index ==> l.truncated(i).entries.len() == i - 1
            && l.truncated(i).entries.len() == l.truncated(i).last_index,
        i == 0 || i > l.last_index ==> l.truncated(i).entries.len() == l.entries.len(),
{
}

/// An operation on a log: an append or a truncate.
pub enum LogOp {
    Append(LogEntryView),
    Truncate(LogIndex),
}

/// The log after `op`: an append is kept when its index follows the last
/// one and refused otherwise; a truncate is as `truncate` does it.
pub open spec fn log_after(l: LogView, op: LogOp) -> LogView {
    match op {
        LogOp::Append(e) => if e.index == l.last_index + 1 {
            l.appended(e)
        } else {
            l
        },
        LogOp::Truncate(i) => l.truncated(i),
    }
}

/// The log after the operations `ops`, in order, from an empty log.
pub open spec fn log_replay(ops: Seq<LogOp>) -> LogView
    decreases ops.len(),
{
    if ops.len() == 0 {
        LogView { entries: Seq::empty(), last_index: 0 }
    } else {
        log_after(log_replay(ops.drop_last()), ops.last())
    }
}

/// Whatever appends and truncates a new log goes through, it stays well
/// formed: it holds as many entries as its last index, the last entry is
/// found at the last index, and nothing after it.
pub proof fn lemma_log_replay_well_formed(ops: Seq<LogOp>)
    ensures
        log_replay(ops).well_formed(),
        log_replay(ops).entries.len() == log_replay(ops).last_index,
        log_replay(ops).last_index > 0 ==> log_replay(ops).entry_at(log_replay(ops).last_index)
            == Some(log_replay(ops).entries.last()),
        log_replay(ops).last_index < u64::MAX ==> log_replay(ops).entry_at(
            (log_replay(ops).last_index + 1) as LogIndex,
        ) is None,
    decreases ops.len(),
{
    if ops.len() > 0 {
        lemma_log_replay_well_formed(ops.drop_last());
        let l = log_replay(ops.drop_last());
        match ops.last() {
            LogOp::Append(e) => {
                if e.index == l.last_index + 1 {
                    let l2 = l.appended(e);
                    assert forall|i: int| 0 <= i < l2.entries.len() implies #[trigger] l2.entries[i].index
                        == i + 1 by {
                        if i < l.entries.len() {
                            assert(l2.entries[i] == l.entries[i]);
                        }
                    }
                }
            },
            LogOp::Truncate(i) => {
                let l2 = l.truncated(i);
                assert forall|j: int| 0 <= j < l2.entries.len() implies #[trigger] l2.entries[j].index
                    == j + 1 by {
                    assert(l2.entries[j] == l.entries[j]);
                }
            },
        }
    }
    lemma_well_formed_ends(log_replay(ops));
}

} // verus!
