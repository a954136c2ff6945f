//! What holds of every run: its ticks, its table, and what it finds when it
//! is run again.

use vstd::prelude::*;
use crate::events::{hashing_events, lemma_hashing_ticks, settled, tick_count, Event, Stage};
use crate::matcher::{lemma_rerun_finds_same_pairs, unordered_matches};
use crate::scan::{
    candidate_paths, lemma_candidates_passed_filter, passed_filter, ScannedEntry,
};
use crate::state::{hashed_at, was_hashed, RunView};
use crate::table::{distinct, mapping};

verus! {

/// While a run hashes, it has reported exactly one tick for each candidate
/// that is settled, hashed or failed.
pub proof fn lemma_one_tick_per_settled_file(run: RunView)
    requires
        run.consistent(),
        run.stage == Stage::Hashing,
    ensures
        tick_count(run.log) == settled(run.outcomes),
{
    lemma_hashing_ticks(run.candidates.len(), settled(run.outcomes));
}

/// Once hashing has ended, the run has reported, from `HashingStarted` up to
/// `ComparingStarted`, exactly one tick for each candidate, failed ones too.
pub proof fn lemma_one_tick_per_candidate(run: RunView)
    requires
        run.consistent(),
        run.stage == Stage::Comparing || (run.stage == Stage::Done && run.selected),
    ensures
        run.log.len() > run.candidates.len() + 2,
        run.log.take(run.candidates.len() as int + 2) == hashing_events(
            run.candidates.len(),
            run.candidates.len(),
        ),
        tick_count(run.log.take(run.candidates.len() as int + 2)) == run.candidates.len(),
        run.log[run.candidates.len() as int + 2] == Event::ComparingStarted,
{
    let n = run.candidates.len();
    lemma_hashing_ticks(n, n);
    assert(run.log.take(n as int + 2) =~= hashing_events(n, n));
}

/// Whether `path` is the path of a candidate that was hashed.
pub open spec fn hashed_path(run: RunView, path: Seq<char>) -> bool {
    exists|i: int|
        0 <= i < run.candidates.len() && run.candidates[i] == path && #[trigger] run.outcomes[i]
            is Hashed
}

/// Every key of the fingerprint table is the path of an entry that passed the
/// filter and of a candidate that was hashed, its fingerprint is the one
/// recorded for that candidate, and no key stands in the table twice.
pub proof fn lemma_keys_passed_filter_and_hashed(run: RunView, entries: Seq<ScannedEntry>)
    requires
        run.consistent(),
        run.candidates == candidate_paths(entries),
    ensures
        distinct(run.keys),
        forall|k: int|
            0 <= k < run.keys.len() ==> passed_filter(entries, #[trigger] run.keys[k])
                && was_hashed(
                run.candidates,
                run.outcomes,
                run.recorded,
                run.keys[k],
                run.prints[k],
            ),
{
    lemma_candidates_passed_filter(entries);
    assert forall|k: int| 0 <= k < run.keys.len() implies passed_filter(
        entries,
        #[trigger] run.keys[k],
    ) && was_hashed(run.candidates, run.outcomes, run.recorded, run.keys[k], run.prints[k]) by {
        assert(was_hashed(run.candidates, run.outcomes, run.recorded, run.keys[k], run.prints[k]));
        let i = choose|i: int|
            hashed_at(run.candidates, run.outcomes, run.recorded, run.keys[k], run.prints[k], i);
        assert(run.candidates[i] == run.keys[k]);
        assert(passed_filter(entries, candidate_paths(entries)[i]));
    }
}

/// Whether every candidate that was hashed was hashed to the fingerprint that
/// `files` holds for its path.
pub open spec fn hashed_as(run: RunView, files: Map<Seq<char>, Seq<bool>>) -> bool {
    forall|i: int|
        0 <= i < run.candidates.len() && #[trigger] run.outcomes[i] is Hashed ==> files.dom().contains(
            run.candidates[i],
        ) && run.recorded[i] == Some(files[run.candidates[i]])
}

/// The fingerprint table is decided by which files were hashed and by their
/// fingerprints: it maps the path of every hashed candidate to the fingerprint
/// of that file, in whatever order the candidates were settled.
pub proof fn lemma_table_follows_files(run: RunView, files: Map<Seq<char>, Seq<bool>>)
    requires
        run.consistent(),
        hashed_as(run, files),
    ensures
        mapping(run.keys, run.prints) == files.restrict(Set::new(|p: Seq<char>| hashed_path(run, p))),
{
    let table = mapping(run.keys, run.prints);
    let wanted = files.restrict(Set::new(|p: Seq<char>| hashed_path(run, p)));
    assert forall|p: Seq<char>| table.dom().contains(p) implies wanted.dom().contains(p)
        && table[p] == wanted[p] by {
        let k = run.keys.index_of(p);
        assert(0 <= k < run.keys.len() && run.keys[k] == p);
        assert(was_hashed(run.candidates, run.outcomes, run.recorded, run.keys[k], run.prints[k]));
        let i = choose|i: int|
            hashed_at(run.candidates, run.outcomes, run.recorded, run.keys[k], run.prints[k], i);
        assert(run.outcomes[i] is Hashed);
        assert(hashed_path(run, p));
    }
    assert forall|p: Seq<char>| wanted.dom().contains(p) implies table.dom().contains(p) by {
        let i = choose|i: int|
            0 <= i < run.candidates.len() && run.candidates[i] == p && #[trigger] run.outcomes[i]
                is Hashed;
        assert(run.keys.contains(run.candidates[i]));
    }
    assert(table =~= wanted);
}

/// Running the pipeline again on files that have not changed finds the same
/// set of unordered pairs: two runs with the same candidates, the same files
/// hashed, the same fingerprint for each file and the same threshold report
/// the same likely duplicates, in whatever order each run settled its files.
pub proof fn lemma_rerun_is_idempotent(
    run: RunView,
    again: RunView,
    files: Map<Seq<char>, Seq<bool>>,
)
    requires
        run.consistent(),
        again.consistent(),
        run.threshold == again.threshold,
        forall|p: Seq<char>| hashed_path(run, p) == hashed_path(again, p),
        hashed_as(run, files),
        hashed_as(again, files),
    ensures
        unordered_matches(run.keys, run.prints, run.threshold) == unordered_matches(
            again.keys,
            again.prints,
            again.threshold,
        ),
{
    lemma_table_follows_files(run, files);
    lemma_table_follows_files(again, files);
    assert(Set::new(|p: Seq<char>| hashed_path(run, p)) =~= Set::new(
        |p: Seq<char>| hashed_path(again, p),
    ));
    lemma_rerun_finds_same_pairs(run.keys, run.prints, again.keys, again.prints, run.threshold);
}

} // verus!
