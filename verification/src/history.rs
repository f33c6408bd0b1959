//! The history store: an ordered, append-only sequence of submitted command
//! records, addressable by position. Persistence of the records is done
//! outside the library; the core needs only append, get and length.

use vstd::prelude::*;

verus! {

/// One fully submitted command: its text (with embedded newlines for
/// multi-line commands), the exit code its execution reported, and the
/// timestamp and working directory at submission, both as plain text.
pub struct HistoryRecord {
    pub command: Vec<char>,
    pub exit_code: Option<i32>,
    pub time: Vec<char>,
    pub cwd: Vec<char>,
}

/// The append-only record sequence.
pub struct HistoryStore {
    records: Vec<HistoryRecord>,
}

impl View for HistoryStore {
    type V = Seq<HistoryRecord>;

    closed spec fn view(&self) -> Seq<HistoryRecord> {
        self.records@
    }
}

impl HistoryStore {
    /// An empty store.
    pub fn new() -> (r: HistoryStore)
        ensures
            r@ == Seq::<HistoryRecord>::empty(),
    {
        HistoryStore { records: Vec::new() }
    }

    /// How many records have been appended.
    pub fn len(&self) -> (r: usize)
        ensures
            r == self@.len(),
    {
        self.records.len()
    }

    /// The record at position `i`.
    pub fn get(&self, i: usize) -> (r: &HistoryRecord)
        requires
            i < self@.len(),
        ensures
            *r == self@[i as int],
    {
        &self.records[i]
    }

    /// The command text of the record at position `i`.
    pub fn command_at(&self, i: usize) -> (r: &Vec<char>)
        requires
            i < self@.len(),
        ensures
            r@ == self@[i as int].command@,
    {
        &self.records[i].command
    }

    /// Appends one record; everything already stored stays where it is.
    pub fn append(&mut self, record: HistoryRecord)
        ensures
            final(self)@ == old(self)@.push(record),
    {
        self.records.push(record);
    }
}

} // verus!
