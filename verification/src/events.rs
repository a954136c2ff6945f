//! The stages of a run, the events it reports, and what becomes of each
//! candidate.

use vstd::prelude::*;
use crate::engine::DecodeError;

verus! {

/// Where a run stands.
#[derive(Clone, Copy, Debug, PartialEq, Eq, Structural)]
pub enum Stage {
    /// Nothing has been chosen yet.
    Idle,
    /// Folders were chosen; their trees are being walked.
    Scanning,
    /// The candidates are known; they are being hashed.
    Hashing,
    /// Every candidate is settled; the fingerprints are being compared.
    Comparing,
    /// The run has its result.
    Done,
    /// The run was given up.
    Failed,
}

/// What a run reports to whoever shows its progress and its result.
#[derive(Clone, Copy, Debug, PartialEq, Eq, Structural)]
pub enum Event {
    /// Hashing is about to begin.
    HashingStarted,
    /// How many files the stage that has just begun will go through.
    TotalFiles(usize),
    /// So many more files have been gone through; always one.
    CurrentFileCount(u32),
    /// Comparing is about to begin.
    ComparingStarted,
    /// The result is there, with so many likely duplicates.
    DuplicatesFound(usize),
}

/// What became of a candidate file.
#[derive(Clone, Copy, Debug, PartialEq, Eq, Structural)]
pub enum Outcome {
    /// Not hashed yet.
    Pending,
    /// Hashed; its fingerprint is in the table.
    Hashed,
    /// It gave no fingerprint and is left out.
    Failed(DecodeError),
}

/// Why a run refused a step. A refused step changes nothing.
#[derive(Clone, Copy, Debug, PartialEq, Eq, Structural)]
pub enum RunError {
    /// The step does not belong to the stage the run is in.
    WrongStage,
    /// There is no candidate with this number.
    UnknownFile,
    /// The candidate is settled already.
    AlreadyRecorded,
    /// Some candidates are not settled yet.
    FilesPending,
    /// Every key of the table has been compared already.
    NoKeyLeft,
    /// Some keys of the table have not been compared yet.
    KeysPending,
    /// There is not one pair of probes for each matched pair.
    ProbesMismatch,
}

/// So many progress ticks.
pub open spec fn ticks(count: nat) -> Seq<Event> {
    Seq::new(count, |i: int| Event::CurrentFileCount(1))
}

/// The events of the hashing stage, after `done` of `total` files.
pub open spec fn hashing_events(total: nat, done: nat) -> Seq<Event> {
    seq![Event::HashingStarted, Event::TotalFiles(total as usize)] + ticks(done)
}

/// The events of the comparing stage, after `done` of `total` keys.
pub open spec fn comparing_events(total: nat, done: nat) -> Seq<Event> {
    seq![Event::ComparingStarted, Event::TotalFiles(total as usize)] + ticks(done)
}

/// Number of progress ticks among `events`.
pub open spec fn tick_count(events: Seq<Event>) -> nat
    decreases events.len(),
{
    if events.len() == 0 {
        0
    } else {
        tick_count(events.drop_last()) + if events.last() is CurrentFileCount { 1nat } else { 0nat }
    }
}

/// Number of candidates that are settled, hashed or failed.
pub open spec fn settled(outcomes: Seq<Outcome>) -> nat
    decreases outcomes.len(),
{
    if outcomes.len() == 0 {
        0
    } else {
        settled(outcomes.drop_last()) + if outcomes.last() is Pending { 0nat } else { 1nat }
    }
}

/// Of candidates that are all pending, none is settled.
pub proof fn lemma_none_settled(n: nat)
    ensures
        settled(Seq::new(n, |k: int| Outcome::Pending)) == 0,
    decreases n,
{
    if n > 0 {
        lemma_none_settled((n - 1) as nat);
        assert(Seq::new(n, |k: int| Outcome::Pending).drop_last() =~= Seq::new(
            (n - 1) as nat,
            |k: int| Outcome::Pending,
        ));
    }
}


/// No more candidates are settled than there are.
pub proof fn lemma_settled_bound(outcomes: Seq<Outcome>)
    ensures
        settled(outcomes) <= outcomes.len(),
    decreases outcomes.len(),
{
    if outcomes.len() > 0 {
        lemma_settled_bound(outcomes.drop_last());
    }
}

/// Settling a pending candidate adds one to the number of settled candidates.
pub proof fn lemma_settle_one(outcomes: Seq<Outcome>, index: int, outcome: Outcome)
    requires
        0 <= index < outcomes.len(),
        outcomes[index] is Pending,
        !(outcome is Pending),
    ensures
        settled(outcomes.update(index, outcome)) == settled(outcomes) + 1,
    decreases outcomes.len(),
{
    let after = outcomes.update(index, outcome);
    if index == outcomes.len() - 1 {
        assert(after.drop_last() =~= outcomes.drop_last());
    } else {
        lemma_settle_one(outcomes.drop_last(), index, outcome);
        assert(after.drop_last() =~= outcomes.drop_last().update(index, outcome));
    }
}


/// The events of the hashing stage hold one tick for each settled file.
pub proof fn lemma_hashing_ticks(total: nat, done: nat)
    ensures
        tick_count(hashing_events(total, done)) == done,
    decreases done,
{
    let events = hashing_events(total, done);
    if done == 0 {
        reveal_with_fuel(tick_count, 3);
        assert(events =~= seq![Event::HashingStarted, Event::TotalFiles(total as usize)]);
        assert(events.drop_last() =~= seq![Event::HashingStarted]);
        assert(events.drop_last().drop_last() =~= Seq::<Event>::empty());
    } else {
        lemma_hashing_ticks(total, (done - 1) as nat);
        assert(events.drop_last() =~= hashing_events(total, (done - 1) as nat));
    }
}

} // verus!
