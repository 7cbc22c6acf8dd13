//! Undo logs: the entries that record where each file went, the text of the
//! JSON log that lists them, and the restore tally.
use vstd::prelude::*;

use crate::order::{
    lemma_le_transitive, lemma_lt_irreflexive, lemma_lt_transitive, lemma_stable_sorted_is_sorted,
    lemma_stable_sorted_permutes, seq_lt, sort_stable, sorted_by_key, stable_sorted, str_lt, SortKey,
};
use crate::path::{join, parent, spec_join, spec_parent};

verus! {

/// One recorded move: the file now at `from` came from `to`, so undoing it
/// moves `from` back to `to`.
#[derive(Debug, PartialEq, Eq)]
pub struct UndoEntry {
    pub from: String,
    pub to: String,
    pub timestamp: String,
}

impl Clone for UndoEntry {
    fn clone(&self) -> (r: Self)
        ensures
            r == *self,
    {
        UndoEntry { from: self.from.clone(), to: self.to.clone(), timestamp: self.timestamp.clone() }
    }
}

/// Entries sort by their original path, in code-point order (`String::cmp`).
impl SortKey for UndoEntry {
    open spec fn key_lt(a: Self, b: Self) -> bool {
        seq_lt(a.to@, b.to@)
    }

    proof fn lemma_key_lt_irreflexive(a: Self) {
        lemma_lt_irreflexive(a.to@);
    }

    proof fn lemma_key_lt_transitive(a: Self, b: Self, c: Self) {
        lemma_lt_transitive(a.to@, b.to@, c.to@);
    }

    proof fn lemma_key_le_transitive(a: Self, b: Self, c: Self) {
        lemma_le_transitive(a.to@, b.to@, c.to@);
    }

    fn sorts_before(&self, other: &Self) -> (r: bool) {
        str_lt(self.to.as_str(), other.to.as_str())
    }
}

/// The JSON escape of one character, as serde_json writes it: `"` and `\`
/// get a backslash, the controls 0x08, 0x09, 0x0A, 0x0C and 0x0D get their
/// short escapes, other characters below 0x20 become `\u00` and two
/// lower-case hex digits, and every other character stands for itself.
pub open spec fn json_escape_char(c: char) -> Seq<char> {
    if c == '"' {
        seq!['\\', '"']
    } else if c == '\\' {
        seq!['\\', '\\']
    } else if c == '\x08' {
        seq!['\\', 'b']
    } else if c == '\t' {
        seq!['\\', 't']
    } else if c == '\n' {
        seq!['\\', 'n']
    } else if c == '\x0c' {
        seq!['\\', 'f']
    } else if c == '\r' {
        seq!['\\', 'r']
    } else if (c as u32) < 0x20 {
        seq!['\\', 'u', '0', '0', hex_digit((c as u32) / 16), hex_digit((c as u32) % 16)]
    } else {
        seq![c]
    }
}

pub open spec fn hex_digit(d: u32) -> char {
    if d < 10 {
        ('0' as u32 + d) as char
    } else {
        ('a' as u32 + d - 10) as char
    }
}

pub open spec fn json_escaped(s: Seq<char>) -> Seq<char>
    decreases s.len(),
{
    if s.len() == 0 {
        Seq::<char>::empty()
    } else {
        json_escaped(s.drop_last()) + json_escape_char(s.last())
    }
}

/// The JSON string literal of `s`: the escaped characters between quotes.
pub open spec fn json_string(s: Seq<char>) -> Seq<char> {
    seq!['"'] + json_escaped(s) + seq!['"']
}

/// Calls `serde_json::to_string` on a string slice.  For `str` the
/// serializer writes the quoted, escaped characters (`format_escaped_str`)
/// into a `Vec<u8>`, whose writes never fail, so the call returns `Ok` with
/// the text that `json_string` describes.
#[verifier::external_body]
fn json_string_literal(s: &str) -> (r: Option<String>)
    ensures
        r is Some,
        r.unwrap()@ == json_string(s@),
{
    match serde_json::to_string(s) {
        Ok(text) => Some(text),
        Err(_) => None,
    }
}

/// One entry as a compact JSON object, fields in declaration order.
pub open spec fn entry_json(e: UndoEntry) -> Seq<char> {
    "{\"from\":"@ + json_string(e.from@) + ",\"to\":"@ + json_string(e.to@) + ",\"timestamp\":"@
        + json_string(e.timestamp@) + "}"@
}

/// The entries as JSON objects separated by ",\n".
pub open spec fn render_entries(es: Seq<UndoEntry>) -> Seq<char>
    decreases es.len(),
{
    if es.len() == 0 {
        Seq::<char>::empty()
    } else if es.len() == 1 {
        entry_json(es[0])
    } else {
        render_entries(es.drop_last()) + ",\n"@ + entry_json(es.last())
    }
}

/// The text of a complete undo log that lists `es`.
pub open spec fn render_log(es: Seq<UndoEntry>) -> Seq<char> {
    "[\n"@ + render_entries(es) + "\n]\n"@
}

fn entry_json_text(e: &UndoEntry) -> (r: String)
    ensures
        r@ == entry_json(*e),
{
    let from = json_string_literal(e.from.as_str()).unwrap();
    let to = json_string_literal(e.to.as_str()).unwrap();
    let timestamp = json_string_literal(e.timestamp.as_str()).unwrap();
    let mut r = String::from_str("{\"from\":");
    r.append(from.as_str());
    r.append(",\"to\":");
    r.append(to.as_str());
    r.append(",\"timestamp\":");
    r.append(timestamp.as_str());
    r.append("}");
    r
}

proof fn lemma_render_push(es: Seq<UndoEntry>, e: UndoEntry)
    ensures
        render_entries(es.push(e)) == if es.len() == 0 {
            entry_json(e)
        } else {
            render_entries(es) + ",\n"@ + entry_json(e)
        },
{
    assert(es.push(e).drop_last() =~= es);
    if es.len() == 0 {
        assert(es.push(e)[0] == e);
    }
}

/// The name of the undo log made at a moment written as `stamp`
/// ("%Y%m%d_%H%M%S" in local time).
pub open spec fn undo_log_name(stamp: Seq<char>) -> Seq<char> {
    "undo_file_organization_"@ + stamp + ".json"@
}

/// Whether `c` is an ASCII digit.
pub open spec fn is_ascii_digit(c: char) -> bool {
    '0' <= c && c <= '9'
}

/// Whether `s` has the form of a "%Y%m%d_%H%M%S" stamp: a year of at least
/// four characters, then month and day as two digits each, '_', and hour,
/// minute and second as two digits each.
pub open spec fn is_log_stamp(s: Seq<char>) -> bool {
    &&& s.len() >= 15
    &&& forall|i: int| s.len() - 11 <= i < s.len() - 7 ==> is_ascii_digit(#[trigger] s[i])
    &&& s[s.len() - 7] == '_'
    &&& forall|i: int| s.len() - 6 <= i < s.len() ==> is_ascii_digit(#[trigger] s[i])
}

/// Calls chrono: the current local time (`Local::now`), formatted as
/// "%Y%m%d_%H%M%S".  Which moment it names depends on the clock, so no
/// clause says which; chrono writes a year with at least four characters
/// and each other field with two digits, which is the form `is_log_stamp`
/// states.  chrono panics when the clock reads before 1970 or its zone
/// yields no local time type for the moment; that depends on the machine,
/// not on any argument.
#[verifier::external_body]
fn local_now_stamp() -> (r: String)
    ensures
        is_log_stamp(r@),
{
    chrono::Local::now().format("%Y%m%d_%H%M%S").to_string()
}

/// Whether `s` has the outline of chrono's RFC 3339 text: a date and time of
/// at least nineteen characters ("YYYY-MM-DDTHH:MM:SS", the year possibly
/// longer, a fraction possibly after the seconds), then the offset from UTC
/// as a sign, two digits, ':' and two digits.
pub open spec fn is_rfc3339_stamp(s: Seq<char>) -> bool {
    &&& s.len() >= 25
    &&& (s[s.len() - 6] == '+' || s[s.len() - 6] == '-')
    &&& is_ascii_digit(s[s.len() - 5]) && is_ascii_digit(s[s.len() - 4])
    &&& s[s.len() - 3] == ':'
    &&& is_ascii_digit(s[s.len() - 2]) && is_ascii_digit(s[s.len() - 1])
}

/// Calls chrono: the current local time (`Local::now`) in RFC 3339 form
/// (`to_rfc3339`, which writes the offset as "+HH:MM", never "Z").  Which
/// moment it names depends on the clock, so no clause says which; its
/// outline is stated.  chrono panics when the clock reads before 1970 or
/// its zone yields no local time type for the moment; that depends on the
/// machine, not on any argument.
#[verifier::external_body]
fn local_now_rfc3339() -> (r: String)
    ensures
        is_rfc3339_stamp(r@),
{
    chrono::Local::now().to_rfc3339()
}

/// The entry for a file moved from `original_path` to `current_path` at the
/// time written as `timestamp`.
pub fn undo_entry_at(current_path: &str, original_path: &str, timestamp: &str) -> (r: UndoEntry)
    ensures
        r.from@ == current_path@,
        r.to@ == original_path@,
        r.timestamp@ == timestamp@,
{
    UndoEntry {
        from: String::from_str(current_path),
        to: String::from_str(original_path),
        timestamp: String::from_str(timestamp),
    }
}

/// The entry for a file just moved from `original_path` to `current_path`,
/// stamped with the current local time.
pub fn undo_entry(current_path: &str, original_path: &str) -> (r: UndoEntry)
    ensures
        r.from@ == current_path@,
        r.to@ == original_path@,
        is_rfc3339_stamp(r.timestamp@),
{
    let now = local_now_rfc3339();
    undo_entry_at(current_path, original_path, now.as_str())
}

/// The text that opens every undo log.
pub fn undo_log_opening() -> (r: String)
    ensures
        r@ == "[\n"@,
{
    String::from_str("[\n")
}

/// A streaming undo log.  Entries wait in a batch and are written out once
/// `flush_batch` of them are pending; `finish` writes the rest sorted by
/// their original path.  Each method returns the text to append to the log
/// file, which starts with `undo_log_opening()`.
pub struct UndoLogWriter {
    pending: Vec<UndoEntry>,
    flush_batch: usize,
    path: String,
    has_entries: bool,
    written: Ghost<Seq<UndoEntry>>,
}

impl UndoLogWriter {
    pub closed spec fn wf(&self) -> bool {
        self.has_entries == (self.written@.len() > 0)
    }

    /// The entries written to the log so far, in order.
    pub closed spec fn written(&self) -> Seq<UndoEntry> {
        self.written@
    }

    /// The entries waiting for the next flush, in order.
    pub closed spec fn pending(&self) -> Seq<UndoEntry> {
        self.pending@
    }

    pub closed spec fn flush_batch(&self) -> usize {
        self.flush_batch
    }

    pub closed spec fn log_path(&self) -> Seq<char> {
        self.path@
    }

    /// A writer for the log in `directory` named after the moment `stamp`.
    pub fn new_at(directory: &str, flush_batch: usize, stamp: &str) -> (r: Self)
        ensures
            r.wf(),
            r.written() == Seq::<UndoEntry>::empty(),
            r.pending() == Seq::<UndoEntry>::empty(),
            r.flush_batch() == flush_batch,
            r.log_path() == spec_join(directory@, undo_log_name(stamp@)),
    {
        let mut name = String::from_str("undo_file_organization_");
        name.append(stamp);
        name.append(".json");
        let path = join(directory, name.as_str());
        let r = UndoLogWriter {
            pending: Vec::new(),
            flush_batch,
            path,
            has_entries: false,
            written: Ghost(Seq::<UndoEntry>::empty()),
        };
        assert(r.pending@ =~= Seq::<UndoEntry>::empty());
        r
    }

    /// A writer for a new log in `directory`, named after the current local time.
    pub fn new(directory: &str, flush_batch: usize) -> (r: Self)
        ensures
            r.wf(),
            r.written() == Seq::<UndoEntry>::empty(),
            r.pending() == Seq::<UndoEntry>::empty(),
            r.flush_batch() == flush_batch,
            exists|stamp: Seq<char>|
                is_log_stamp(stamp) && r.log_path() == spec_join(directory@, #[trigger] undo_log_name(stamp)),
    {
        let stamp = local_now_stamp();
        Self::new_at(directory, flush_batch, stamp.as_str())
    }

    /// Path of the log file.
    pub fn path(&self) -> (r: &String)
        ensures
            r@ == self.log_path(),
    {
        &self.path
    }

    /// Writes out the given entries, in order, after those already written.
    fn write_batch(&mut self, batch: &Vec<UndoEntry>) -> (text: String)
        requires
            old(self).wf(),
        ensures
            final(self).wf(),
            final(self).written() == old(self).written() + batch@,
            final(self).pending == old(self).pending,
            final(self).flush_batch == old(self).flush_batch,
            final(self).path == old(self).path,
            render_entries(final(self).written()) == render_entries(old(self).written()) + text@,
    {
        let ghost start = self.written@;
        let mut text = String::new();
        let mut i: usize = 0;
        while i < batch.len()
            invariant
                i <= batch.len(),
                self.wf(),
                self.written@ == start + batch@.take(i as int),
                self.pending == old(self).pending,
                self.flush_batch == old(self).flush_batch,
                self.path == old(self).path,
                render_entries(self.written@) == render_entries(start) + text@,
            decreases batch.len() - i,
        {
            let e = batch[i].clone();
            let json = entry_json_text(&e);
            proof {
                lemma_render_push(self.written@, e);
            }
            if self.has_entries {
                text.append(",\n");
            }
            text.append(json.as_str());
            proof {
                assert(start + batch@.take(i + 1) =~= (start + batch@.take(i as int)).push(e));
            }
            self.written = Ghost(self.written@.push(e));
            self.has_entries = true;
            i += 1;
        }
        assert(batch@.take(batch@.len() as int) =~= batch@);
        text
    }

    /// Records an entry; once `flush_batch` entries are pending they are all
    /// written out.
    pub fn push(&mut self, entry: UndoEntry) -> (text: String)
        requires
            old(self).wf(),
        ensures
            final(self).wf(),
            final(self).flush_batch() == old(self).flush_batch(),
            final(self).log_path() == old(self).log_path(),
            if old(self).pending().len() + 1 >= old(self).flush_batch() {
                &&& final(self).pending() == Seq::<UndoEntry>::empty()
                &&& final(self).written() == old(self).written() + old(self).pending().push(entry)
            } else {
                &&& final(self).pending() == old(self).pending().push(entry)
                &&& final(self).written() == old(self).written()
            },
            render_entries(final(self).written()) == render_entries(old(self).written()) + text@,
    {
        self.pending.push(entry);
        if self.pending.len() >= self.flush_batch {
            let mut batch: Vec<UndoEntry> = Vec::new();
            std::mem::swap(&mut batch, &mut self.pending);
            let text = self.write_batch(&batch);
            assert(self.pending@ =~= Seq::<UndoEntry>::empty());
            text
        } else {
            let text = String::new();
            assert(render_entries(self.written@) =~= render_entries(self.written@) + text@);
            text
        }
    }

    /// Completes the log: the pending entries and `extra_entries` are written
    /// sorted (stably) by original path, then the closing bracket.  Returns
    /// the text to append and the log's path.
    pub fn finish(self, extra_entries: Vec<UndoEntry>) -> (r: (String, String))
        requires
            self.wf(),
        ensures
            render_entries(self.written()) + r.0@ == render_entries(
                self.written() + stable_sorted(self.pending() + extra_entries@),
            ) + "\n]\n"@,
            r.1@ == self.log_path(),
    {
        let mut this = self;
        let mut rest: Vec<UndoEntry> = Vec::new();
        std::mem::swap(&mut rest, &mut this.pending);
        let mut extra = extra_entries;
        rest.append(&mut extra);
        let sorted = sort_stable(rest);
        let mut text = this.write_batch(&sorted);
        text.append("\n]\n");
        (text, this.path)
    }

    /// The text that closes a log that is dropped before `finish`: the
    /// pending entries in the order they came, then the closing bracket.
    pub fn abandon(self) -> (text: String)
        requires
            self.wf(),
        ensures
            render_entries(self.written()) + text@ == render_entries(self.written() + self.pending())
                + "\n]\n"@,
    {
        let mut this = self;
        let mut rest: Vec<UndoEntry> = Vec::new();
        std::mem::swap(&mut rest, &mut this.pending);
        let mut text = this.write_batch(&rest);
        text.append("\n]\n");
        text
    }
}

/// An undo log file to create: where it goes and what it holds.
pub struct UndoLogFile {
    pub path: String,
    pub text: String,
}

/// The undo log that records `entries`, stably sorted by original path,
/// in a new file in `directory` named after the current local time.  The
/// caller creates the file (it must not exist yet) with the given text.
pub fn write_undo_log(directory: &str, entries: &Vec<UndoEntry>) -> (r: UndoLogFile)
    ensures
        r.text@ == render_log(stable_sorted(entries@)),
        exists|stamp: Seq<char>| is_log_stamp(stamp) && r.path@ == spec_join(directory@, #[trigger] undo_log_name(stamp)),
{
    let mut copies: Vec<UndoEntry> = Vec::new();
    let mut k: usize = 0;
    while k < entries.len()
        invariant
            k <= entries.len(),
            copies@ == entries@.take(k as int),
        decreases entries.len() - k,
    {
        copies.push(entries[k].clone());
        assert(entries@.take(k + 1) =~= entries@.take(k as int).push(entries@[k as int]));
        k += 1;
    }
    assert(entries@.take(entries@.len() as int) =~= entries@);
    let sorted = sort_stable(copies);
    proof {
        lemma_stable_sorted_permutes(entries@);
    }
    let n = sorted.len();
    let batch = if n > 1 { n } else { 1 };
    let mut writer = UndoLogWriter::new(directory, batch);
    let ghost path0 = writer.log_path();
    let mut text = undo_log_opening();
    let mut pushed = String::new();
    let mut i: usize = 0;
    while i < n
        invariant
            n == sorted@.len(),
            i <= n,
            batch == if n > 1 { n } else { 1 },
            writer.wf(),
            writer.flush_batch() == batch,
            writer.log_path() == path0,
            writer.written() + writer.pending() == sorted@.take(i as int),
            i < n ==> writer.written().len() == 0,
            (i == n && n > 0) ==> writer.pending().len() == 0,
            render_entries(writer.written()) == pushed@,
        decreases n - i,
    {
        let ghost before_written = writer.written();
        let ghost before_pending = writer.pending();
        let e = sorted[i].clone();
        let t = writer.push(e);
        pushed.append(t.as_str());
        proof {
            assert(before_written =~= Seq::<UndoEntry>::empty());
            assert(before_pending =~= sorted@.take(i as int));
            assert(sorted@.take(i + 1) =~= sorted@.take(i as int).push(sorted@[i as int]));
            if i + 1 >= batch {
                assert(writer.written() =~= sorted@.take(i + 1));
            } else {
                assert(writer.written() + writer.pending() =~= sorted@.take(i + 1));
            }
        }
        i += 1;
    }
    proof {
        assert(sorted@.take(n as int) =~= sorted@);
        assert(writer.pending() + Seq::<UndoEntry>::empty() =~= Seq::<UndoEntry>::empty());
        assert(stable_sorted(Seq::<UndoEntry>::empty()) =~= Seq::<UndoEntry>::empty());
        assert(writer.written() =~= sorted@);
        assert(writer.written() + Seq::<UndoEntry>::empty() =~= sorted@);
    }
    let ghost final_written = writer.written();
    let ghost final_pending = writer.pending();
    let (closing, path) = writer.finish(Vec::new());
    text.append(pushed.as_str());
    text.append(closing.as_str());
    proof {
        let a = render_entries(final_written);
        assert(final_pending =~= Seq::<UndoEntry>::empty());
        assert(final_pending + Seq::<UndoEntry>::empty() =~= Seq::<UndoEntry>::empty());
        assert(final_written + stable_sorted(final_pending + Seq::<UndoEntry>::empty()) =~= final_written);
        assert(a + closing@ == a + "\n]\n"@);
        assert(text@ =~= "[\n"@ + (a + closing@));
        assert(text@ =~= render_log(final_written));
    }
    UndoLogFile { path, text }
}

/// What restoring one entry takes: move `current` back to `original`, after
/// creating `create_dir` (the original's directory) where there is one.
pub struct RestoreMove {
    pub current: String,
    pub original: String,
    pub create_dir: Option<String>,
}

/// The move that undoes an entry.
pub fn restore_move(entry: &UndoEntry) -> (r: RestoreMove)
    ensures
        r.current@ == entry.from@,
        r.original@ == entry.to@,
        match r.create_dir {
            Some(d) => spec_parent(entry.to@) == Some(d@),
            None => spec_parent(entry.to@) is None,
        },
{
    RestoreMove {
        current: entry.from.clone(),
        original: entry.to.clone(),
        create_dir: parent(entry.to.as_str()),
    }
}

/// How many entries were moved back, and how many could not be.
pub struct UndoRestoreResult {
    pub restored_count: usize,
    pub failed_count: usize,
}

/// How many of the outcomes are `want`.
pub open spec fn count_outcomes(outcomes: Seq<bool>, want: bool) -> nat
    decreases outcomes.len(),
{
    if outcomes.len() == 0 {
        0
    } else {
        count_outcomes(outcomes.drop_last(), want) + if outcomes.last() == want {
            1nat
        } else {
            0nat
        }
    }
}

proof fn lemma_count_outcomes_split(outcomes: Seq<bool>)
    ensures
        count_outcomes(outcomes, true) + count_outcomes(outcomes, false) == outcomes.len(),
    decreases outcomes.len(),
{
    if outcomes.len() > 0 {
        lemma_count_outcomes_split(outcomes.drop_last());
    }
}

impl UndoRestoreResult {
    /// The tally of the restore moves, `outcomes[i]` telling whether the
    /// i-th move succeeded.
    pub fn from_outcomes(outcomes: &Vec<bool>) -> (r: Self)
        ensures
            r.restored_count == count_outcomes(outcomes@, true),
            r.failed_count == count_outcomes(outcomes@, false),
            r.restored_count + r.failed_count == outcomes@.len(),
    {
        let mut restored: usize = 0;
        let mut failed: usize = 0;
        let mut i: usize = 0;
        while i < outcomes.len()
            invariant
                i <= outcomes.len(),
                restored == count_outcomes(outcomes@.take(i as int), true),
                failed == count_outcomes(outcomes@.take(i as int), false),
                restored + failed == i,
            decreases outcomes.len() - i,
        {
            proof {
                assert(outcomes@.take(i + 1).drop_last() =~= outcomes@.take(i as int));
                assert(outcomes@.take(i + 1).last() == outcomes@[i as int]);
                lemma_count_outcomes_split(outcomes@.take(i as int));
            }
            if outcomes[i] {
                restored += 1;
            } else {
                failed += 1;
            }
            i += 1;
        }
        assert(outcomes@.take(outcomes@.len() as int) =~= outcomes@);
        UndoRestoreResult { restored_count: restored, failed_count: failed }
    }

    /// Whether some moves could not be undone.
    pub fn partial(&self) -> (r: bool)
        ensures
            r == (self.failed_count > 0),
    {
        self.failed_count > 0
    }

    /// Whether the log file is deleted after the restore: only when every
    /// move was undone.
    pub fn removes_log(&self) -> (r: bool)
        ensures
            r == (self.failed_count == 0),
    {
        self.failed_count == 0
    }
}

/// An undo log lists every entry it was given, as often as it was given,
/// ordered by original path (entries with the same original path keep
/// their order).
pub proof fn lemma_undo_log_lists_each_entry(entries: Seq<UndoEntry>)
    ensures
        stable_sorted(entries).to_multiset() == entries.to_multiset(),
        stable_sorted(entries).len() == entries.len(),
        sorted_by_key(stable_sorted(entries)),
{
    lemma_stable_sorted_permutes(entries);
    lemma_stable_sorted_is_sorted(entries);
}

/// Finishing a log writes every pending and extra entry exactly once after
/// those already written.
pub proof fn lemma_finish_keeps_entries(written: Seq<UndoEntry>, pending: Seq<UndoEntry>, extra: Seq<UndoEntry>)
    ensures
        (written + stable_sorted(pending + extra)).to_multiset() == (written + pending + extra).to_multiset(),
{
    broadcast use vstd::seq_lib::group_to_multiset_ensures;

    lemma_stable_sorted_permutes(pending + extra);
    vstd::seq_lib::lemma_multiset_commutative(written, stable_sorted(pending + extra));
    vstd::seq_lib::lemma_multiset_commutative(written, pending + extra);
    assert(written + pending + extra =~= written + (pending + extra));
}

} // verus!
