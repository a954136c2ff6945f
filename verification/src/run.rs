//! One run, from the choice of folders to the list of likely duplicates: the
//! steps that take it from stage to stage.

use vstd::prelude::*;
use crate::engine::{DecodeError, HashConfig};
use crate::events::{
    hashing_events, lemma_none_settled, lemma_settle_one, lemma_settled_bound, settled, Event,
    Outcome, RunError, Stage,
};
use crate::fingerprint::Fingerprint;
use crate::matcher::{
    all_matches, lemma_each_pair_once, matches_for, matches_of, pair_view, pairs_view,
    true_match, MatchedPair,
};
use crate::report::{assemble, reports, DuplicateCandidate, PairProbe};
use crate::scan::{candidate_paths, select_candidates, skipped_paths, texts, ScannedEntry};
use crate::state::{
    hashed_are_keys, hashed_at, keys_were_hashed, prints_on_record, was_hashed, RunView,
};
use crate::table::{mapping, FingerprintTable};

verus! {

/// What a run is started with.
#[derive(Clone, Copy, Debug)]
pub struct RunConfig {
    /// The grid of the fingerprints.
    pub hash: HashConfig,
    /// Largest Hamming distance at which two files count as likely duplicates.
    pub threshold: u32,
}

/// One run of the pipeline.
pub struct Run {
    stage: Stage,
    selected: bool,
    config: RunConfig,
    candidates: Vec<String>,
    skipped: Vec<String>,
    outcomes: Vec<Outcome>,
    prints_seen: Ghost<Seq<Option<Seq<bool>>>>,
    recorded: usize,
    table: FingerprintTable,
    compared: usize,
    matches: Vec<MatchedPair>,
    duplicates: Vec<DuplicateCandidate>,
    log: Vec<Event>,
    failure: Option<String>,
}

impl View for Run {
    type V = RunView;

    closed spec fn view(&self) -> RunView {
        RunView {
            stage: self.stage,
            selected: self.selected,
            threshold: self.config.threshold,
            candidates: texts(self.candidates@),
            skipped: texts(self.skipped@),
            outcomes: self.outcomes@,
            recorded: self.prints_seen@,
            keys: self.table.keys(),
            prints: self.table.prints(),
            compared: self.compared as nat,
            matches: pairs_view(self.matches@),
            duplicates: self.duplicates@,
            log: self.log@,
            grid: self.config.hash,
            failure: match self.failure {
                Some(reason) => Some(reason@),
                None => None,
            },
        }
    }
}

impl Run {
    /// Whether the run's own count of settled candidates is right.
    pub closed spec fn counted(&self) -> bool {
        self.recorded == settled(self.outcomes@)
    }

    /// The run's invariant.
    pub open spec fn wf(&self) -> bool {
        self@.consistent() && self.counted()
    }

    /// A run that has not begun.
    pub fn new(config: RunConfig) -> (r: Run)
        ensures
            r.wf(),
            r@.stage == Stage::Idle,
            !r@.selected,
            r@.threshold == config.threshold,
            r@.grid == config.hash,
            r@.failure is None,
    {
        let run = Run {
            stage: Stage::Idle,
            selected: false,
            config,
            candidates: Vec::new(),
            skipped: Vec::new(),
            outcomes: Vec::new(),
            prints_seen: Ghost(Seq::empty()),
            recorded: 0,
            table: FingerprintTable::new(),
            compared: 0,
            matches: Vec::new(),
            duplicates: Vec::new(),
            log: Vec::new(),
            failure: None,
        };
        assert(run@.matches =~= Seq::empty());
        assert(run@.log =~= Seq::empty());
        run
    }

    /// Takes the choice of folders: `None` where none was chosen. With a
    /// choice the run goes on to scanning, and hashing is announced. Without
    /// one the run is done, with no likely duplicates and nothing reported.
    pub fn begin(&mut self, roots: &Option<Vec<String>>) -> (r: Result<(), RunError>)
        requires
            old(self).wf(),
        ensures
            final(self).wf(),
            r is Ok <==> old(self)@.stage == Stage::Idle,
            r is Ok ==> final(self)@ == (RunView {
                stage: if roots is Some { Stage::Scanning } else { Stage::Done },
                selected: roots is Some,
                log: if roots is Some { seq![Event::HashingStarted] } else { Seq::empty() },
                ..old(self)@
            }),
            r matches Err(e) ==> e == RunError::WrongStage && *final(self) == *old(self),
    {
        if self.stage != Stage::Idle {
            return Err(RunError::WrongStage);
        }
        match roots {
            Some(_) => {
                self.stage = Stage::Scanning;
                self.selected = true;
                self.log.push(Event::HashingStarted);
                assert(self@.log =~= seq![Event::HashingStarted]);
            },
            None => {
                self.stage = Stage::Done;
                self.selected = false;
            },
        }
        Ok(())
    }

    /// Takes the entries of the walk, keeps the candidates among them, and
    /// goes on to hashing. The number of candidates is reported.
    pub fn scanned(&mut self, entries: &Vec<ScannedEntry>) -> (r: Result<(), RunError>)
        requires
            old(self).wf(),
        ensures
            final(self).wf(),
            r is Ok <==> old(self)@.stage == Stage::Scanning,
            r is Ok ==> final(self)@ == (RunView {
                stage: Stage::Hashing,
                candidates: candidate_paths(entries@),
                skipped: skipped_paths(entries@),
                outcomes: Seq::new(candidate_paths(entries@).len(), |i: int| Outcome::Pending),
                recorded: Seq::new(candidate_paths(entries@).len(), |i: int| None),
                log: old(self)@.log.push(Event::TotalFiles(candidate_paths(entries@).len() as usize)),
                ..old(self)@
            }),
            r matches Err(e) ==> e == RunError::WrongStage && *final(self) == *old(self),
    {
        if self.stage != Stage::Scanning {
            return Err(RunError::WrongStage);
        }
        let report = select_candidates(entries);
        let n = report.candidates.len();
        let mut outcomes: Vec<Outcome> = Vec::new();
        let mut i: usize = 0;
        while i < n
            invariant
                i <= n,
                outcomes@ == Seq::new(i as nat, |k: int| Outcome::Pending),
            decreases n - i,
        {
            outcomes.push(Outcome::Pending);
            i = i + 1;
        }
        proof {
            lemma_none_settled(n as nat);
        }
        self.candidates = report.candidates;
        self.skipped = report.skipped;
        self.outcomes = outcomes;
        self.prints_seen = Ghost(Seq::new(n as nat, |i: int| None));
        self.recorded = 0;
        self.stage = Stage::Hashing;
        self.log.push(Event::TotalFiles(n));
        assert(self@.log =~= hashing_events(n as nat, 0));
        Ok(())
    }

    /// Settles candidate number `index`: with its fingerprint, which goes into
    /// the table under the candidate's path, or with the reason why it has
    /// none, which leaves it out. Either way one progress tick is reported.
    /// Candidates may be settled in any order, each once.
    pub fn record(&mut self, index: usize, outcome: Result<Fingerprint, DecodeError>) -> (r: Result<
        (),
        RunError,
    >)
        requires
            old(self).wf(),
        ensures
            final(self).wf(),
            r is Ok <==> old(self)@.stage == Stage::Hashing && index < old(self)@.candidates.len()
                && old(self)@.outcomes[index as int] is Pending,
            r matches Err(e) ==> *final(self) == *old(self) && e == (if old(self)@.stage
                != Stage::Hashing {
                RunError::WrongStage
            } else if index >= old(self)@.candidates.len() {
                RunError::UnknownFile
            } else {
                RunError::AlreadyRecorded
            }),
            r is Ok ==> final(self)@ == (RunView {
                outcomes: old(self)@.outcomes.update(
                    index as int,
                    match outcome {
                        Ok(_) => Outcome::Hashed,
                        Err(error) => Outcome::Failed(error),
                    },
                ),
                recorded: match outcome {
                    Ok(print) => old(self)@.recorded.update(index as int, Some(print@)),
                    Err(_) => old(self)@.recorded,
                },
                keys: final(self)@.keys,
                prints: final(self)@.prints,
                log: old(self)@.log.push(Event::CurrentFileCount(1)),
                ..old(self)@
            }),
            r is Ok ==> match outcome {
                Ok(print) => {
                    let key = old(self)@.candidates[index as int];
                    &&& mapping(final(self)@.keys, final(self)@.prints) == mapping(
                        old(self)@.keys,
                        old(self)@.prints,
                    ).insert(key, print@)
                    &&& if old(self)@.keys.contains(key) {
                        &&& final(self)@.keys == old(self)@.keys
                        &&& final(self)@.prints == old(self)@.prints.update(
                            old(self)@.keys.index_of(key),
                            print@,
                        )
                    } else {
                        &&& final(self)@.keys == old(self)@.keys.push(key)
                        &&& final(self)@.prints == old(self)@.prints.push(print@)
                    }
                },
                Err(_) => final(self)@.keys == old(self)@.keys && final(self)@.prints == old(
                    self,
                )@.prints,
            },
    {
        if self.stage != Stage::Hashing {
            return Err(RunError::WrongStage);
        }
        if index >= self.candidates.len() {
            return Err(RunError::UnknownFile);
        }
        if self.outcomes[index] != Outcome::Pending {
            return Err(RunError::AlreadyRecorded);
        }
        let ghost before = self@;
        proof {
            lemma_settled_bound(self.outcomes@);
        }
        match outcome {
            Ok(print) => {
                let path = self.candidates[index].clone();
                let ghost seen = print@;
                let added = self.table.insert(path, print);
                self.outcomes.set(index, Outcome::Hashed);
                self.prints_seen = Ghost(before.recorded.update(index as int, Some(seen)));
                proof {
                    lemma_settle_one(before.outcomes, index as int, Outcome::Hashed);
                    let now = self@;
                    let key = before.candidates[index as int];
                    let at = if added {
                        before.keys.len() as int
                    } else {
                        before.keys.index_of(key)
                    };
                    if !added {
                        assert(before.keys.contains(key));
                    }
                    assert(now.keys[at] == key && now.prints[at] == seen);
                    assert(now.keys.contains(key));
                    assert forall|k: int| 0 <= k < now.keys.len() implies was_hashed(
                        now.candidates,
                        now.outcomes,
                        now.recorded,
                        #[trigger] now.keys[k],
                        now.prints[k],
                    ) by {
                        if k == at {
                            assert(hashed_at(
                                now.candidates,
                                now.outcomes,
                                now.recorded,
                                now.keys[k],
                                now.prints[k],
                                index as int,
                            ));
                        } else {
                            assert(k < before.keys.len());
                            assert(now.keys[k] == before.keys[k]);
                            assert(now.prints[k] == before.prints[k]);
                            assert(was_hashed(
                                before.candidates,
                                before.outcomes,
                                before.recorded,
                                before.keys[k],
                                before.prints[k],
                            ));
                            let i = choose|i: int|
                                hashed_at(
                                    before.candidates,
                                    before.outcomes,
                                    before.recorded,
                                    before.keys[k],
                                    before.prints[k],
                                    i,
                                );
                            assert(hashed_at(
                                now.candidates,
                                now.outcomes,
                                now.recorded,
                                now.keys[k],
                                now.prints[k],
                                i,
                            ));
                        }
                    }
                    assert forall|i: int|
                        0 <= i < now.candidates.len() && #[trigger] now.outcomes[i]
                            is Hashed implies now.keys.contains(now.candidates[i]) by {
                        if i != index {
                            assert(before.outcomes[i] is Hashed);
                            assert(before.keys.contains(before.candidates[i]));
                            let at = before.keys.index_of(before.candidates[i]);
                            assert(now.keys[at] == before.candidates[i]);
                        }
                    }
                    assert(prints_on_record(now.outcomes, now.recorded));
                }
            },
            Err(error) => {
                self.outcomes.set(index, Outcome::Failed(error));
                proof {
                    lemma_settle_one(before.outcomes, index as int, Outcome::Failed(error));
                    let now = self@;
                    assert forall|k: int| 0 <= k < now.keys.len() implies was_hashed(
                        now.candidates,
                        now.outcomes,
                        now.recorded,
                        #[trigger] now.keys[k],
                        now.prints[k],
                    ) by {
                        assert(now.keys[k] == before.keys[k]);
                        assert(was_hashed(
                            before.candidates,
                            before.outcomes,
                            before.recorded,
                            before.keys[k],
                            before.prints[k],
                        ));
                        let i = choose|i: int|
                            hashed_at(
                                before.candidates,
                                before.outcomes,
                                before.recorded,
                                before.keys[k],
                                before.prints[k],
                                i,
                            );
                        assert(hashed_at(
                            now.candidates,
                            now.outcomes,
                            now.recorded,
                            now.keys[k],
                            now.prints[k],
                            i,
                        ));
                    }
                    assert forall|i: int|
                        0 <= i < now.candidates.len() && #[trigger] now.outcomes[i]
                            is Hashed implies now.keys.contains(now.candidates[i]) by {
                        assert(before.outcomes[i] is Hashed);
                    }
                    assert(prints_on_record(now.outcomes, now.recorded));
                }
            },
        }
        let ghost settled_view = self@;
        proof {
            lemma_settled_bound(self.outcomes@);
            assert(keys_were_hashed(
                settled_view.keys,
                settled_view.prints,
                settled_view.candidates,
                settled_view.outcomes,
                settled_view.recorded,
            ));
            assert(hashed_are_keys(settled_view.keys, settled_view.candidates, settled_view.outcomes));
            assert(prints_on_record(settled_view.outcomes, settled_view.recorded));
        }
        self.recorded = self.recorded + 1;
        self.log.push(Event::CurrentFileCount(1));
        assert(self@.log =~= hashing_events(
            before.candidates.len(),
            settled(settled_view.outcomes),
        ));
        assert(self@.keys == settled_view.keys && self@.outcomes == settled_view.outcomes);
        assert(self@.prints == settled_view.prints && self@.recorded == settled_view.recorded);
        Ok(())
    }

    /// Ends hashing, once every candidate is settled, and goes on to
    /// comparing. The number of fingerprints in the table is reported.
    pub fn begin_comparing(&mut self) -> (r: Result<(), RunError>)
        requires
            old(self).wf(),
        ensures
            final(self).wf(),
            r is Ok <==> old(self)@.stage == Stage::Hashing && settled(old(self)@.outcomes) == old(
                self,
            )@.candidates.len(),
            r matches Err(e) ==> *final(self) == *old(self) && e == (if old(self)@.stage
                != Stage::Hashing {
                RunError::WrongStage
            } else {
                RunError::FilesPending
            }),
            r is Ok ==> final(self)@ == (RunView {
                stage: Stage::Comparing,
                log: old(self)@.log + seq![
                    Event::ComparingStarted,
                    Event::TotalFiles(old(self)@.keys.len() as usize),
                ],
                ..old(self)@
            }),
    {
        if self.stage != Stage::Hashing {
            return Err(RunError::WrongStage);
        }
        if self.recorded != self.candidates.len() {
            return Err(RunError::FilesPending);
        }
        let ghost before = self@;
        self.stage = Stage::Comparing;
        self.log.push(Event::ComparingStarted);
        self.log.push(Event::TotalFiles(self.table.len()));
        assert(self@.log =~= before.log + seq![
            Event::ComparingStarted,
            Event::TotalFiles(before.keys.len() as usize),
        ]);
        assert(self@.log =~= self@.expected_log());
        Ok(())
    }

    /// Compares the next key of the table with every key after it, and adds
    /// the pairs within the threshold to the matches. One progress tick is
    /// reported. Returns how many pairs were added.
    pub fn compare_next(&mut self) -> (r: Result<usize, RunError>)
        requires
            old(self).wf(),
        ensures
            final(self).wf(),
            r is Ok <==> old(self)@.stage == Stage::Comparing && old(self)@.compared < old(
                self,
            )@.keys.len(),
            r matches Err(e) ==> *final(self) == *old(self) && e == (if old(self)@.stage
                != Stage::Comparing {
                RunError::WrongStage
            } else {
                RunError::NoKeyLeft
            }),
            r matches Ok(found) ==> final(self)@ == (RunView {
                compared: old(self)@.compared + 1,
                matches: old(self)@.matches + matches_of(
                    old(self)@.prints,
                    old(self)@.compared as int,
                    old(self)@.prints.len() as int,
                    old(self)@.threshold,
                ),
                log: old(self)@.log.push(Event::CurrentFileCount(1)),
                ..old(self)@
            }) && found == final(self)@.matches.len() - old(self)@.matches.len(),
    {
        if self.stage != Stage::Comparing {
            return Err(RunError::WrongStage);
        }
        if self.compared >= self.table.len() {
            return Err(RunError::NoKeyLeft);
        }
        let ghost before = self@;
        let mut row = matches_for(&self.table, self.compared, self.config.threshold);
        let found = row.len();
        let ghost earlier = self.matches@;
        let ghost added = row@;
        self.matches.append(&mut row);
        assert(pairs_view(self.matches@) =~= pairs_view(earlier) + pairs_view(added));
        self.compared = self.compared + 1;
        self.log.push(Event::CurrentFileCount(1));
        assert(self@.log =~= self@.expected_log());
        Ok(found)
    }

    /// Ends comparing, once every key has been compared, and makes the report
    /// of each matched pair from the metadata in `probes`, which holds one
    /// pair of probes for each matched pair, in the order of the matches. The
    /// run is then done, and its result is reported.
    pub fn finish(&mut self, probes: &Vec<PairProbe>) -> (r: Result<(), RunError>)
        requires
            old(self).wf(),
        ensures
            final(self).wf(),
            r is Ok <==> old(self)@.stage == Stage::Comparing && old(self)@.compared == old(
                self,
            )@.keys.len() && probes@.len() == old(self)@.matches.len(),
            r matches Err(e) ==> *final(self) == *old(self) && e == (if old(self)@.stage
                != Stage::Comparing {
                RunError::WrongStage
            } else if old(self)@.compared != old(self)@.keys.len() {
                RunError::KeysPending
            } else {
                RunError::ProbesMismatch
            }),
            r is Ok ==> final(self)@ == (RunView {
                stage: Stage::Done,
                duplicates: final(self)@.duplicates,
                log: old(self)@.log.push(Event::DuplicatesFound(old(self)@.matches.len() as usize)),
                ..old(self)@
            }),
            r is Ok ==> final(self)@.matches == all_matches(
                final(self)@.prints,
                final(self)@.threshold,
            ),
            r is Ok ==> final(self)@.duplicates.len() == final(self)@.matches.len(),
            r is Ok ==> forall|k: int|
                0 <= k < final(self)@.duplicates.len() ==> reports(
                    #[trigger] final(self)@.duplicates[k],
                    final(self)@.keys,
                    final(self)@.matches[k],
                    probes@[k],
                ),
    {
        if self.stage != Stage::Comparing {
            return Err(RunError::WrongStage);
        }
        if self.compared != self.table.len() {
            return Err(RunError::KeysPending);
        }
        if probes.len() != self.matches.len() {
            return Err(RunError::ProbesMismatch);
        }
        let ghost before = self@;
        proof {
            lemma_each_pair_once(before.prints, before.threshold);
        }
        let mut duplicates: Vec<DuplicateCandidate> = Vec::new();
        let mut k: usize = 0;
        while k < self.matches.len()
            invariant
                k <= self.matches@.len(),
                probes@.len() == self.matches@.len(),
                self@ == before,
                before.matches == all_matches(before.prints, before.threshold),
                forall|j: int|
                    0 <= j < before.matches.len() ==> true_match(
                        before.prints,
                        before.threshold,
                        #[trigger] before.matches[j],
                    ),
                before.keys.len() == before.prints.len(),
                duplicates@.len() == k,
                forall|j: int|
                    0 <= j < k ==> reports(
                        #[trigger] duplicates@[j],
                        before.keys,
                        before.matches[j],
                        probes@[j],
                    ),
            decreases self.matches@.len() - k,
        {
            assert(true_match(before.prints, before.threshold, before.matches[k as int]));
            assert(before.matches[k as int] == pair_view(self.matches@[k as int]));
            let candidate = assemble(&self.table, &self.matches[k], &probes[k]);
            duplicates.push(candidate);
            k = k + 1;
        }
        self.duplicates = duplicates;
        self.stage = Stage::Done;
        self.log.push(Event::DuplicatesFound(self.duplicates.len()));
        assert(self@.log =~= self@.expected_log());
        Ok(())
    }

    /// Gives the run up for a reason that it cannot recover from, such as a
    /// broken reporting channel. A run that is done or failed stays as it is.
    pub fn fail(&mut self, reason: String) -> (r: Result<(), RunError>)
        requires
            old(self).wf(),
        ensures
            final(self).wf(),
            r is Ok <==> old(self)@.stage != Stage::Done && old(self)@.stage != Stage::Failed,
            r matches Err(e) ==> *final(self) == *old(self) && e == RunError::WrongStage,
            r is Ok ==> final(self)@ == (RunView {
                stage: Stage::Failed,
                failure: Some(reason@),
                ..old(self)@
            }),
    {
        if self.stage == Stage::Done || self.stage == Stage::Failed {
            return Err(RunError::WrongStage);
        }
        self.stage = Stage::Failed;
        self.failure = Some(reason);
        Ok(())
    }

    /// The stage the run is in.
    pub fn stage(&self) -> (r: Stage)
        ensures
            r == self@.stage,
    {
        self.stage
    }

    /// The grid with which the run's files are to be hashed.
    pub fn hash_config(&self) -> (r: HashConfig)
        ensures
            r == self@.grid,
    {
        self.config.hash
    }

    /// The threshold the run compares with.
    pub fn threshold(&self) -> (r: u32)
        ensures
            r == self@.threshold,
    {
        self.config.threshold
    }

    /// The candidate paths, in the order of the walk.
    pub fn candidates(&self) -> (r: &Vec<String>)
        ensures
            texts(r@) == self@.candidates,
    {
        &self.candidates
    }

    /// The paths that the walk could not read.
    pub fn skipped(&self) -> (r: &Vec<String>)
        ensures
            texts(r@) == self@.skipped,
    {
        &self.skipped
    }

    /// What became of each candidate, in the order of the candidates.
    pub fn outcomes(&self) -> (r: &Vec<Outcome>)
        ensures
            r@ == self@.outcomes,
    {
        &self.outcomes
    }

    /// Number of candidates that are settled.
    pub fn settled_count(&self) -> (r: usize)
        requires
            self.wf(),
        ensures
            r == settled(self@.outcomes),
    {
        self.recorded
    }

    /// The fingerprint table.
    pub fn table(&self) -> (r: &FingerprintTable)
        requires
            self.wf(),
        ensures
            r.wf(),
            r.keys() == self@.keys,
            r.prints() == self@.prints,
    {
        &self.table
    }

    /// Number of keys that have been compared with the keys after them.
    pub fn compared_count(&self) -> (r: usize)
        ensures
            r == self@.compared,
    {
        self.compared
    }

    /// The matches found so far, in the order in which they were found.
    pub fn matches(&self) -> (r: &Vec<MatchedPair>)
        ensures
            pairs_view(r@) == self@.matches,
    {
        &self.matches
    }

    /// The likely duplicates reported; empty until the run is done.
    pub fn duplicates(&self) -> (r: &Vec<DuplicateCandidate>)
        ensures
            r@ == self@.duplicates,
    {
        &self.duplicates
    }

    /// Hands out the likely duplicates and ends the run's life.
    pub fn into_duplicates(self) -> (r: Vec<DuplicateCandidate>)
        ensures
            r@ == self@.duplicates,
    {
        self.duplicates
    }

    /// The events reported so far, in their order.
    pub fn events(&self) -> (r: &Vec<Event>)
        ensures
            r@ == self@.log,
    {
        &self.log
    }

    /// The reason for which the run was given up, if it was.
    pub fn failure(&self) -> (r: &Option<String>)
        ensures
            match *r {
                Some(reason) => self@.failure == Some(reason@),
                None => self@.failure is None,
            },
    {
        &self.failure
    }
}

} // verus!
