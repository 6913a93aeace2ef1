use vstd::prelude::*;
use crate::levels::{LevelMeta, LevelsToml, same_but_solved};

verus! {

/// What happened to one catalog entry in a batch verification.
#[derive(Debug)]
pub enum EntryOutcome {
    /// The entry has no `file` field: it is skipped.
    NoFile,
    /// The level's mirrored playback does not exist: the entry is left as it is.
    NoPlayback,
    /// The playback was replayed and completes the level.
    Passed,
    /// The playback was replayed and does not complete the level.
    Failed,
}

/// The entry after a batch verification with the given outcome.
pub open spec fn reconciled(e: LevelMeta, o: EntryOutcome, f: LevelMeta) -> bool {
    match o {
        EntryOutcome::NoFile | EntryOutcome::NoPlayback => f == e,
        EntryOutcome::Passed => same_but_solved(f, e) && f.solved == Some(true),
        EntryOutcome::Failed => same_but_solved(f, e) && f.solved == Some(false),
    }
}

pub open spec fn is_evaluated(o: EntryOutcome) -> bool {
    o is Passed || o is Failed
}

/// What a batch verification of one catalog found.
#[derive(Debug)]
pub struct BatchSummary {
    /// Some entry was evaluated, so the catalog must be written back.
    pub updated: bool,
    /// Some playback failed verification.
    pub any_failed: bool,
}

/// Sets each entry's solved flag from its verification outcome: a passed playback marks the
/// entry solved, a failed one unsolved; an entry without a file or without a playback is left
/// untouched. No other field changes.
pub fn apply_outcomes(catalog: &mut LevelsToml, outcomes: &Vec<EntryOutcome>) -> (r: BatchSummary)
    requires
        outcomes.len() == old(catalog).level.len(),
    ensures
        final(catalog).level.len() == old(catalog).level.len(),
        forall|i: int|
            0 <= i < outcomes.len() ==> reconciled(
                old(catalog).level[i],
                #[trigger] outcomes[i],
                final(catalog).level[i],
            ),
        r.updated == exists|i: int| 0 <= i < outcomes.len() && is_evaluated(#[trigger] outcomes[i]),
        r.any_failed == exists|i: int| 0 <= i < outcomes.len() && (#[trigger] outcomes[i]) is Failed,
{
    let n = outcomes.len();
    let mut updated = false;
    let mut any_failed = false;
    let mut i: usize = 0;
    while i < n
        invariant
            n == outcomes.len(),
            n == catalog.level.len(),
            i <= n,
            forall|k: int| 0 <= k < i ==> reconciled(old(catalog).level[k], #[trigger] outcomes[k], catalog.level[k]),
            forall|k: int| i <= k < n ==> #[trigger] catalog.level[k] == old(catalog).level[k],
            updated == exists|k: int| 0 <= k < i && is_evaluated(#[trigger] outcomes[k]),
            any_failed == exists|k: int| 0 <= k < i && (#[trigger] outcomes[k]) is Failed,
        decreases n - i,
    {
        let solved = match outcomes[i] {
            EntryOutcome::NoFile | EntryOutcome::NoPlayback => None,
            EntryOutcome::Passed => Some(true),
            EntryOutcome::Failed => Some(false),
        };
        if let Some(s) = solved {
            let ghost before = catalog.level@;
            let mut entry = catalog.level.remove(i);
            entry.solved = Some(s);
            catalog.level.insert(i, entry);
            assert forall|k: int| 0 <= k < n && k != i implies #[trigger] catalog.level[k] == before[k] by {}
            updated = true;
            if !s {
                any_failed = true;
            }
        }
        assert(reconciled(old(catalog).level[i as int], outcomes[i as int], catalog.level[i as int]));
        i = i + 1;
    }
    BatchSummary { updated, any_failed }
}

} // verus!
