//! The scan cache: the grouping of the last preview, kept so that organizing
//! the same directory with the same strategy does not scan it again.
use vstd::prelude::*;

use crate::group::{GroupResult, Strategy};
use crate::text::str_eq;

verus! {

/// A cached grouping and the directory and strategy it was made for.
pub struct ScanCache {
    pub directory: String,
    pub strategy: Strategy,
    pub grouped: GroupResult,
}

/// The slot that holds at most one cached grouping.
pub struct ScanCacheSlot {
    pub entry: Option<ScanCache>,
}

/// Whether a cached grouping was made for `directory` and `strategy`.
pub open spec fn cache_matches(entry: ScanCache, directory: Seq<char>, strategy: Strategy) -> bool {
    entry.directory@ == directory && entry.strategy == strategy
}

/// The slot after storing a grouping: it holds that grouping alone.
pub open spec fn spec_store(directory: String, strategy: Strategy, grouped: GroupResult) -> ScanCacheSlot {
    ScanCacheSlot { entry: Some(ScanCache { directory, strategy, grouped }) }
}

/// What taking the grouping for `directory` and `strategy` gives, and the
/// slot afterwards: a matching grouping is handed out and the slot emptied;
/// otherwise nothing is handed out and the slot is left as it was.
pub open spec fn spec_take_matching(slot: ScanCacheSlot, directory: Seq<char>, strategy: Strategy) -> (
    Option<GroupResult>,
    ScanCacheSlot,
) {
    match slot.entry {
        Some(e) => if cache_matches(e, directory, strategy) {
            (Some(e.grouped), ScanCacheSlot { entry: None })
        } else {
            (None, slot)
        },
        None => (None, slot),
    }
}

impl ScanCacheSlot {
    /// An empty slot.
    pub fn new() -> (r: Self)
        ensures
            r.entry is None,
    {
        ScanCacheSlot { entry: None }
    }

    /// Caches `grouped` for `directory` and `strategy`, replacing what was
    /// cached before.
    pub fn store(&mut self, directory: String, strategy: Strategy, grouped: GroupResult)
        ensures
            *final(self) == spec_store(directory, strategy, grouped),
    {
        self.entry = Some(ScanCache { directory, strategy, grouped });
    }

    /// Hands out the cached grouping where it was made for `directory` and
    /// `strategy`, emptying the slot; otherwise hands out nothing.
    pub fn take_matching(&mut self, directory: &str, strategy: Strategy) -> (r: Option<GroupResult>)
        ensures
            (r, *final(self)) == spec_take_matching(*old(self), directory@, strategy),
    {
        let matches = match &self.entry {
            Some(e) => str_eq(e.directory.as_str(), directory) && e.strategy == strategy,
            None => false,
        };
        if matches {
            match self.entry.take() {
                Some(e) => Some(e.grouped),
                None => None,
            }
        } else {
            None
        }
    }

    /// Empties the slot.
    pub fn clear(&mut self)
        ensures
            final(self).entry is None,
    {
        self.entry = None;
    }

    /// Updates the cache after an organization run of `directory` with
    /// `strategy`: a preview-only run caches the grouping it made, a run that
    /// moved files and wrote an undo log empties the cache, and any other run
    /// leaves it as it was.
    pub fn record_organize_run(
        &mut self,
        directory: String,
        strategy: Strategy,
        preview_only: bool,
        undo_log_written: bool,
        snapshot: GroupResult,
    )
        ensures
            *final(self) == if preview_only {
                spec_store(directory, strategy, snapshot)
            } else if undo_log_written {
                ScanCacheSlot { entry: None }
            } else {
                *old(self)
            },
    {
        if preview_only {
            self.store(directory, strategy, snapshot);
        } else if undo_log_written {
            self.clear();
        }
    }
}

/// A grouping cached for a directory and strategy is handed back, unchanged,
/// when the same directory and strategy ask for it, and only once.
pub proof fn lemma_take_returns_stored(directory: String, strategy: Strategy, grouped: GroupResult)
    ensures
        spec_take_matching(spec_store(directory, strategy, grouped), directory@, strategy) == (
            Some(grouped),
            ScanCacheSlot { entry: None },
        ),
        spec_take_matching(ScanCacheSlot { entry: None }, directory@, strategy).0 is None,
{
}

/// Another directory or another strategy gets nothing from the cache, and
/// the cached grouping stays for a later matching request.
pub proof fn lemma_take_other_keeps_cache(
    directory: String,
    strategy: Strategy,
    grouped: GroupResult,
    other_directory: Seq<char>,
    other_strategy: Strategy,
)
    requires
        other_directory != directory@ || other_strategy != strategy,
    ensures
        spec_take_matching(spec_store(directory, strategy, grouped), other_directory, other_strategy) == (
            None::<GroupResult>,
            spec_store(directory, strategy, grouped),
        ),
{
}

} // verus!
