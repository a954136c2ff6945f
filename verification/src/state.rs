//! What a run holds, as mathematical values, and what holds of it at every
//! moment.

use vstd::prelude::*;
use crate::engine::HashConfig;
use crate::events::{comparing_events, hashing_events, settled, Event, Outcome, Stage};
use crate::matcher::matches_upto;
use crate::report::DuplicateCandidate;
use crate::table::distinct;

verus! {

/// Whether candidate number `i` has the path `key` and was hashed to `print`.
pub open spec fn hashed_at(
    candidates: Seq<Seq<char>>,
    outcomes: Seq<Outcome>,
    recorded: Seq<Option<Seq<bool>>>,
    key: Seq<char>,
    print: Seq<bool>,
    i: int,
) -> bool {
    &&& 0 <= i < candidates.len()
    &&& candidates[i] == key
    &&& outcomes[i] is Hashed
    &&& recorded[i] == Some(print)
}

/// Whether some candidate has the path `key` and was hashed to `print`.
pub open spec fn was_hashed(
    candidates: Seq<Seq<char>>,
    outcomes: Seq<Outcome>,
    recorded: Seq<Option<Seq<bool>>>,
    key: Seq<char>,
    print: Seq<bool>,
) -> bool {
    exists|i: int| #[trigger] hashed_at(candidates, outcomes, recorded, key, print, i)
}

/// Every key of the table is the path of a candidate that was hashed, and its
/// fingerprint in the table is the one that was recorded for that candidate.
pub open spec fn keys_were_hashed(
    keys: Seq<Seq<char>>,
    prints: Seq<Seq<bool>>,
    candidates: Seq<Seq<char>>,
    outcomes: Seq<Outcome>,
    recorded: Seq<Option<Seq<bool>>>,
) -> bool {
    forall|k: int|
        0 <= k < keys.len() ==> was_hashed(
            candidates,
            outcomes,
            recorded,
            #[trigger] keys[k],
            prints[k],
        )
}

/// A fingerprint is on record for the candidates that were hashed, and for no
/// others.
pub open spec fn prints_on_record(outcomes: Seq<Outcome>, recorded: Seq<Option<Seq<bool>>>) -> bool {
    &&& recorded.len() == outcomes.len()
    &&& forall|i: int|
        0 <= i < outcomes.len() ==> (#[trigger] recorded[i] is Some <==> outcomes[i] is Hashed)
}

/// The path of every candidate that was hashed is a key of the table.
pub open spec fn hashed_are_keys(
    keys: Seq<Seq<char>>,
    candidates: Seq<Seq<char>>,
    outcomes: Seq<Outcome>,
) -> bool {
    forall|i: int|
        0 <= i < candidates.len() && #[trigger] outcomes[i] is Hashed ==> keys.contains(
            candidates[i],
        )
}

/// What a run holds, as mathematical values.
pub struct RunView {
    /// The stage the run is in.
    pub stage: Stage,
    /// Whether folders were chosen.
    pub selected: bool,
    /// The threshold the run compares with.
    pub threshold: u32,
    /// The candidate paths, in the order of the walk.
    pub candidates: Seq<Seq<char>>,
    /// The paths that the walk could not read.
    pub skipped: Seq<Seq<char>>,
    /// What became of each candidate.
    pub outcomes: Seq<Outcome>,
    /// The fingerprint recorded for each candidate that was hashed.
    pub recorded: Seq<Option<Seq<bool>>>,
    /// The paths of the fingerprint table.
    pub keys: Seq<Seq<char>>,
    /// The fingerprints of the fingerprint table.
    pub prints: Seq<Seq<bool>>,
    /// Number of keys that have been compared with the keys after them.
    pub compared: nat,
    /// The matches found so far.
    pub matches: Seq<(int, int, nat)>,
    /// The likely duplicates reported.
    pub duplicates: Seq<DuplicateCandidate>,
    /// The events reported so far.
    pub log: Seq<Event>,
    /// The grid with which the run's files are to be hashed.
    pub grid: HashConfig,
    /// The reason for which the run was given up, if it was.
    pub failure: Option<Seq<char>>,
}

impl RunView {
    /// Whether the run holds nothing yet.
    pub open spec fn fresh(self) -> bool {
        &&& self.candidates.len() == 0
        &&& self.skipped.len() == 0
        &&& self.keys.len() == 0
        &&& self.compared == 0
        &&& self.duplicates.len() == 0
    }

    /// The events that a run in this state has reported, in their order.
    pub open spec fn expected_log(self) -> Seq<Event> {
        let n = self.candidates.len();
        let m = self.keys.len();
        match self.stage {
            Stage::Idle => Seq::empty(),
            Stage::Scanning => seq![Event::HashingStarted],
            Stage::Hashing => hashing_events(n, settled(self.outcomes)),
            Stage::Comparing => hashing_events(n, n) + comparing_events(m, self.compared),
            Stage::Done => if self.selected {
                hashing_events(n, n) + comparing_events(m, m) + seq![
                    Event::DuplicatesFound(self.duplicates.len() as usize),
                ]
            } else {
                Seq::empty()
            },
            Stage::Failed => self.log,
        }
    }

    /// What holds of a run at every moment.
    pub open spec fn consistent(self) -> bool {
        &&& distinct(self.keys)
        &&& self.keys.len() == self.prints.len()
        &&& self.outcomes.len() == self.candidates.len()
        &&& prints_on_record(self.outcomes, self.recorded)
        &&& keys_were_hashed(self.keys, self.prints, self.candidates, self.outcomes, self.recorded)
        &&& hashed_are_keys(self.keys, self.candidates, self.outcomes)
        &&& self.compared <= self.keys.len()
        &&& self.matches == matches_upto(self.prints, self.compared as int, self.threshold)
        &&& self.log == self.expected_log()
        &&& match self.stage {
            Stage::Idle => self.fresh(),
            Stage::Scanning => self.fresh() && self.selected,
            Stage::Hashing => self.selected && self.compared == 0 && self.duplicates.len() == 0,
            Stage::Comparing => self.selected && settled(self.outcomes) == self.candidates.len()
                && self.duplicates.len() == 0,
            Stage::Done => if self.selected {
                &&& settled(self.outcomes) == self.candidates.len()
                &&& self.compared == self.keys.len()
                &&& self.duplicates.len() == self.matches.len()
            } else {
                self.fresh()
            },
            Stage::Failed => true,
        }
    }
}

} // verus!
