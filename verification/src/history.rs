//! The undo history of a session: the undo logs of the runs that moved
//! files, most recent last, so that an undo restores the latest run.
use vstd::prelude::*;

verus! {

/// The undo logs written in this session, oldest first.
pub struct UndoHistory {
    pub logs: Vec<String>,
}

/// What an undo is answered when the history is empty.
pub open spec fn nothing_to_undo_message() -> Seq<char> {
    "No operations to undo."@
}

/// The history after a run that wrote `undo_file`.
pub open spec fn spec_record(logs: Seq<String>, undo_file: String) -> Seq<String> {
    logs.push(undo_file)
}

/// What an undo takes from the history, and the history afterwards: the
/// latest log, removed; or, with no log, the message and the history as it was.
pub open spec fn spec_take_latest(logs: Seq<String>) -> (Result<String, Seq<char>>, Seq<String>) {
    if logs.len() == 0 {
        (Err(nothing_to_undo_message()), logs)
    } else {
        (Ok(logs.last()), logs.drop_last())
    }
}

impl UndoHistory {
    /// An empty history.
    pub fn new() -> (r: Self)
        ensures
            r.logs@ == Seq::<String>::empty(),
    {
        UndoHistory { logs: Vec::new() }
    }

    /// Records the undo log of a run.
    pub fn record(&mut self, undo_file: String)
        ensures
            final(self).logs@ == spec_record(old(self).logs@, undo_file),
    {
        self.logs.push(undo_file);
    }

    /// Takes the latest undo log, or says that there is nothing to undo.
    pub fn take_latest(&mut self) -> (r: Result<String, String>)
        ensures
            final(self).logs@ == spec_take_latest(old(self).logs@).1,
            match r {
                Ok(f) => spec_take_latest(old(self).logs@).0 == Ok::<String, Seq<char>>(f),
                Err(m) => spec_take_latest(old(self).logs@).0 == Err::<String, Seq<char>>(m@),
            },
    {
        match self.logs.pop() {
            Some(f) => Ok(f),
            None => Err(String::from_str("No operations to undo.")),
        }
    }

    /// Whether there is a run to undo.
    pub fn has_operations(&self) -> (r: bool)
        ensures
            r == (self.logs@.len() > 0),
    {
        self.logs.len() > 0
    }
}

/// An undo takes the log of the latest run, and leaves the history as it
/// was before that run.
pub proof fn lemma_undo_takes_latest_run(logs: Seq<String>, undo_file: String)
    ensures
        spec_take_latest(spec_record(logs, undo_file)) == (
            Ok::<String, Seq<char>>(undo_file),
            logs,
        ),
{
    assert(logs.push(undo_file).drop_last() =~= logs);
}

} // verus!
