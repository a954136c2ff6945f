//! The duplicate matcher: every pair of fingerprints within a threshold.

use vstd::prelude::*;
use crate::fingerprint::{hamming, lemma_hamming_symmetric};
use crate::table::{distinct, lemma_index_of, mapping, FingerprintTable};

verus! {

/// Two positions of a fingerprint table whose fingerprints are close.
#[derive(Clone, Copy, Debug, PartialEq, Eq, Structural)]
pub struct MatchedPair {
    /// Position of the first file; always less than `second`.
    pub first: usize,
    /// Position of the second file.
    pub second: usize,
    /// Hamming distance between the two fingerprints.
    pub distance: u32,
}

/// A matched pair as numbers: first position, second position, distance.
pub open spec fn pair_view(pair: MatchedPair) -> (int, int, nat) {
    (pair.first as int, pair.second as int, pair.distance as nat)
}

/// The matched pairs of `pairs` as numbers.
pub open spec fn pairs_view(pairs: Seq<MatchedPair>) -> Seq<(int, int, nat)> {
    Seq::new(pairs.len(), |k: int| pair_view(pairs[k]))
}

/// Whether the fingerprints at positions `i` and `j` are within `threshold`.
pub open spec fn close(prints: Seq<Seq<bool>>, i: int, j: int, threshold: u32) -> bool {
    hamming(prints[i], prints[j]) <= threshold
}

/// The matches of position `i` with the positions after it and before `end`,
/// in rising order of the second position.
pub open spec fn matches_of(prints: Seq<Seq<bool>>, i: int, end: int, threshold: u32) -> Seq<
    (int, int, nat),
>
    decreases end - i,
{
    if end <= i + 1 {
        Seq::empty()
    } else if close(prints, i, end - 1, threshold) {
        matches_of(prints, i, end - 1, threshold).push(
            (i, end - 1, hamming(prints[i], prints[end - 1])),
        )
    } else {
        matches_of(prints, i, end - 1, threshold)
    }
}

/// The matches whose first position is before `upto`, in rising order of the
/// first position and then of the second.
pub open spec fn matches_upto(prints: Seq<Seq<bool>>, upto: int, threshold: u32) -> Seq<
    (int, int, nat),
>
    decreases upto,
{
    if upto <= 0 {
        Seq::empty()
    } else {
        matches_upto(prints, upto - 1, threshold) + matches_of(
            prints,
            upto - 1,
            prints.len() as int,
            threshold,
        )
    }
}

/// All matches among `prints`.
pub open spec fn all_matches(prints: Seq<Seq<bool>>, threshold: u32) -> Seq<(int, int, nat)> {
    matches_upto(prints, prints.len() as int, threshold)
}

/// The pairs that the file at `index` forms with the files after it.
pub fn matches_for(table: &FingerprintTable, index: usize, threshold: u32) -> (r: Vec<MatchedPair>)
    requires
        index < table.keys().len(),
    ensures
        pairs_view(r@) == matches_of(
            table.prints(),
            index as int,
            table.prints().len() as int,
            threshold,
        ),
{
    let n = table.len();
    let own = table.fingerprint(index);
    let mut found: Vec<MatchedPair> = Vec::new();
    let mut j: usize = index + 1;
    while j < n
        invariant
            index < j <= n,
            n == table.prints().len(),
            n == table.keys().len(),
            own@ == table.prints()[index as int],
            pairs_view(found@) == matches_of(table.prints(), index as int, j as int, threshold),
        decreases n - j,
    {
        let distance = own.distance(table.fingerprint(j));
        if distance <= threshold {
            found.push(MatchedPair { first: index, second: j, distance });
        }
        j = j + 1;
    }
    found
}

/// Compares every two fingerprints of the table once, and returns the pairs
/// whose Hamming distance is at most `threshold`.
pub fn compare_hashes(table: &FingerprintTable, threshold: u32) -> (r: Vec<MatchedPair>)
    ensures
        pairs_view(r@) == all_matches(table.prints(), threshold),
{
    let n = table.len();
    let mut found: Vec<MatchedPair> = Vec::new();
    let mut i: usize = 0;
    while i < n
        invariant
            i <= n,
            n == table.prints().len(),
            n == table.keys().len(),
            pairs_view(found@) == matches_upto(table.prints(), i as int, threshold),
        decreases n - i,
    {
        let mut row = matches_for(table, i, threshold);
        let ghost before = found@;
        let ghost added = row@;
        found.append(&mut row);
        assert(pairs_view(found@) =~= pairs_view(before) + pairs_view(added));
        i = i + 1;
    }
    found
}


/// Whether match `p` comes before match `q`: by first position, then by second.
pub open spec fn before(p: (int, int, nat), q: (int, int, nat)) -> bool {
    p.0 < q.0 || (p.0 == q.0 && p.1 < q.1)
}

/// Whether `m` is a true match of `prints`: two positions in rising order, their
/// distance, and that distance within the threshold.
pub open spec fn true_match(prints: Seq<Seq<bool>>, threshold: u32, m: (int, int, nat)) -> bool {
    &&& 0 <= m.0 < m.1 < prints.len()
    &&& m.2 == hamming(prints[m.0], prints[m.1])
    &&& m.2 <= threshold
}

/// The match that positions `i` and `j` make.
pub open spec fn match_at(prints: Seq<Seq<bool>>, i: int, j: int) -> (int, int, nat) {
    (i, j, hamming(prints[i], prints[j]))
}

proof fn lemma_matches_of(prints: Seq<Seq<bool>>, i: int, end: int, threshold: u32)
    requires
        0 <= i,
        end <= prints.len(),
    ensures
        forall|k: int|
            0 <= k < matches_of(prints, i, end, threshold).len() ==> {
                let m = #[trigger] matches_of(prints, i, end, threshold)[k];
                true_match(prints, threshold, m) && m.0 == i && m.1 < end
            },
        forall|k1: int, k2: int|
            0 <= k1 < k2 < matches_of(prints, i, end, threshold).len() ==> before(
                #[trigger] matches_of(prints, i, end, threshold)[k1],
                #[trigger] matches_of(prints, i, end, threshold)[k2],
            ),
        forall|j: int|
            i < j < end && close(prints, i, j, threshold) ==> matches_of(
                prints,
                i,
                end,
                threshold,
            ).contains(#[trigger] match_at(prints, i, j)),
    decreases end - i,
{
    if end > i + 1 {
        lemma_matches_of(prints, i, end - 1, threshold);
        let shorter = matches_of(prints, i, end - 1, threshold);
        let all = matches_of(prints, i, end, threshold);
        assert forall|j: int| i < j < end && close(prints, i, j, threshold) implies all.contains(
            #[trigger] match_at(prints, i, j),
        ) by {
            if j < end - 1 {
                assert(shorter.contains(match_at(prints, i, j)));
                let k = choose|k: int| 0 <= k < shorter.len() && shorter[k] == match_at(prints, i, j);
                assert(all[k] == match_at(prints, i, j));
            } else {
                assert(all[all.len() - 1] == match_at(prints, i, j));
            }
        }
    }
}

proof fn lemma_matches_upto(prints: Seq<Seq<bool>>, upto: int, threshold: u32)
    requires
        upto <= prints.len(),
    ensures
        forall|k: int|
            0 <= k < matches_upto(prints, upto, threshold).len() ==> {
                let m = #[trigger] matches_upto(prints, upto, threshold)[k];
                true_match(prints, threshold, m) && m.0 < upto
            },
        forall|k1: int, k2: int|
            0 <= k1 < k2 < matches_upto(prints, upto, threshold).len() ==> before(
                #[trigger] matches_upto(prints, upto, threshold)[k1],
                #[trigger] matches_upto(prints, upto, threshold)[k2],
            ),
        forall|i: int, j: int|
            0 <= i < upto && i < j < prints.len() && close(prints, i, j, threshold)
                ==> matches_upto(prints, upto, threshold).contains(
                #[trigger] match_at(prints, i, j),
            ),
    decreases upto,
{
    if upto > 0 {
        let n = prints.len() as int;
        lemma_matches_upto(prints, upto - 1, threshold);
        lemma_matches_of(prints, upto - 1, n, threshold);
        let head = matches_upto(prints, upto - 1, threshold);
        let row = matches_of(prints, upto - 1, n, threshold);
        let all = matches_upto(prints, upto, threshold);
        assert(all == head + row);
        assert forall|k: int| 0 <= k < all.len() implies {
            let m = #[trigger] all[k];
            true_match(prints, threshold, m) && m.0 < upto
        } by {
            if k < head.len() {
                assert(all[k] == head[k]);
            } else {
                assert(all[k] == row[k - head.len()]);
            }
        }
        assert forall|k1: int, k2: int| 0 <= k1 < k2 < all.len() implies before(
            #[trigger] all[k1],
            #[trigger] all[k2],
        ) by {
            if k2 < head.len() {
                assert(all[k1] == head[k1] && all[k2] == head[k2]);
            } else if k1 < head.len() {
                assert(all[k1] == head[k1] && all[k2] == row[k2 - head.len()]);
            } else {
                assert(all[k1] == row[k1 - head.len()] && all[k2] == row[k2 - head.len()]);
            }
        }
        assert forall|i: int, j: int|
            0 <= i < upto && i < j < prints.len() && close(
                prints,
                i,
                j,
                threshold,
            ) implies all.contains(#[trigger] match_at(prints, i, j)) by {
            if i < upto - 1 {
                assert(head.contains(match_at(prints, i, j)));
                let k = choose|k: int| 0 <= k < head.len() && head[k] == match_at(prints, i, j);
                assert(all[k] == match_at(prints, i, j));
            } else {
                assert(row.contains(match_at(prints, i, j)));
                let k = choose|k: int| 0 <= k < row.len() && row[k] == match_at(prints, i, j);
                assert(all[head.len() + k] == match_at(prints, i, j));
            }
        }
    }
}

/// The matcher takes each two distinct positions once: every match it reports
/// is a true match of two different positions, every true match is reported,
/// and the reports stand in strictly rising order, so that none comes twice,
/// in this order of its two positions or in the other.
pub proof fn lemma_each_pair_once(prints: Seq<Seq<bool>>, threshold: u32)
    ensures
        forall|k: int|
            0 <= k < all_matches(prints, threshold).len() ==> true_match(
                prints,
                threshold,
                #[trigger] all_matches(prints, threshold)[k],
            ),
        forall|i: int, j: int|
            0 <= i < j < prints.len() && close(prints, i, j, threshold) ==> all_matches(
                prints,
                threshold,
            ).contains(#[trigger] match_at(prints, i, j)),
        forall|k1: int, k2: int|
            0 <= k1 < k2 < all_matches(prints, threshold).len() ==> before(
                #[trigger] all_matches(prints, threshold)[k1],
                #[trigger] all_matches(prints, threshold)[k2],
            ),
        forall|k1: int, k2: int|
            0 <= k1 < all_matches(prints, threshold).len() && 0 <= k2 < all_matches(
                prints,
                threshold,
            ).len() && k1 != k2 ==> {
                let p = #[trigger] all_matches(prints, threshold)[k1];
                let q = #[trigger] all_matches(prints, threshold)[k2];
                !(p.0 == q.0 && p.1 == q.1) && !(p.0 == q.1 && p.1 == q.0)
            },
{
    lemma_matches_upto(prints, prints.len() as int, threshold);
    let all = all_matches(prints, threshold);
    assert forall|k1: int, k2: int| 0 <= k1 < all.len() && 0 <= k2 < all.len() && k1 != k2 implies {
        let p = #[trigger] all[k1];
        let q = #[trigger] all[k2];
        !(p.0 == q.0 && p.1 == q.1) && !(p.0 == q.1 && p.1 == q.0)
    } by {
        assert(true_match(prints, threshold, all[k1]));
        assert(true_match(prints, threshold, all[k2]));
        if k1 < k2 {
            assert(before(all[k1], all[k2]));
        } else {
            assert(before(all[k2], all[k1]));
        }
    }
}

/// A match as the two paths it joins, in no order, with their distance.
pub open spec fn unordered(keys: Seq<Seq<char>>, m: (int, int, nat)) -> (Set<Seq<char>>, nat) {
    (set![keys[m.0], keys[m.1]], m.2)
}

/// The matches of a table, each as two paths in no order with their distance.
pub open spec fn unordered_matches(
    keys: Seq<Seq<char>>,
    prints: Seq<Seq<bool>>,
    threshold: u32,
) -> Set<(Set<Seq<char>>, nat)> {
    Set::new(
        |e: (Set<Seq<char>>, nat)|
            exists|k: int|
                0 <= k < all_matches(prints, threshold).len() && e == unordered(
                    keys,
                    #[trigger] all_matches(prints, threshold)[k],
                ),
    )
}

/// Two different paths of a mapping with their distance, in no order.
pub open spec fn joined(table: Map<Seq<char>, Seq<bool>>, a: Seq<char>, b: Seq<char>) -> (
    Set<Seq<char>>,
    nat,
) {
    (set![a, b], hamming(table[a], table[b]))
}

/// Whether `a` and `b` are different paths of the mapping with close fingerprints.
pub open spec fn close_paths(
    table: Map<Seq<char>, Seq<bool>>,
    threshold: u32,
    a: Seq<char>,
    b: Seq<char>,
) -> bool {
    &&& table.dom().contains(a)
    &&& table.dom().contains(b)
    &&& a != b
    &&& hamming(table[a], table[b]) <= threshold
}

/// The pairs of different paths of a mapping whose fingerprints are within
/// `threshold`, each in no order with its distance.
pub open spec fn close_pairs(table: Map<Seq<char>, Seq<bool>>, threshold: u32) -> Set<
    (Set<Seq<char>>, nat),
> {
    Set::new(
        |e: (Set<Seq<char>>, nat)|
            exists|a: Seq<char>, b: Seq<char>|
                close_paths(table, threshold, a, b) && e == #[trigger] joined(table, a, b),
    )
}

/// What the matcher finds, taken as a set of unordered pairs, is decided by
/// the mapping from path to fingerprint alone: the order in which the paths
/// came into the table plays no part.
pub proof fn lemma_matches_follow_mapping(
    keys: Seq<Seq<char>>,
    prints: Seq<Seq<bool>>,
    threshold: u32,
)
    requires
        distinct(keys),
        keys.len() == prints.len(),
    ensures
        unordered_matches(keys, prints, threshold) == close_pairs(
            mapping(keys, prints),
            threshold,
        ),
{
    let all = all_matches(prints, threshold);
    let table = mapping(keys, prints);
    let found = unordered_matches(keys, prints, threshold);
    let wanted = close_pairs(table, threshold);
    lemma_each_pair_once(prints, threshold);
    assert forall|e: (Set<Seq<char>>, nat)| found.contains(e) implies wanted.contains(e) by {
        let k = choose|k: int| 0 <= k < all.len() && e == unordered(keys, #[trigger] all[k]);
        let m = all[k];
        assert(true_match(prints, threshold, m));
        let a = keys[m.0];
        let b = keys[m.1];
        lemma_index_of(keys, m.0);
        lemma_index_of(keys, m.1);
        assert(close_paths(table, threshold, a, b));
        assert(e == joined(table, a, b));
    }
    assert forall|e: (Set<Seq<char>>, nat)| wanted.contains(e) implies found.contains(e) by {
        let (a, b) = choose|a: Seq<char>, b: Seq<char>|
            close_paths(table, threshold, a, b) && e == #[trigger] joined(table, a, b);
        let i = keys.index_of(a);
        let j = keys.index_of(b);
        assert(0 <= i < keys.len() && keys[i] == a);
        assert(0 <= j < keys.len() && keys[j] == b);
        if i < j {
            assert(close(prints, i, j, threshold));
            assert(all.contains(match_at(prints, i, j)));
            let k = choose|k: int| 0 <= k < all.len() && all[k] == match_at(prints, i, j);
            assert(e == unordered(keys, all[k]));
        } else {
            lemma_hamming_symmetric(prints[i], prints[j]);
            assert(close(prints, j, i, threshold));
            assert(all.contains(match_at(prints, j, i)));
            let k = choose|k: int| 0 <= k < all.len() && all[k] == match_at(prints, j, i);
            assert(set![b, a] =~= set![a, b]);
            assert(e == unordered(keys, all[k]));
        }
    }
    assert(found =~= wanted);
}

/// Running the matcher again on the same files with the same fingerprints and
/// the same threshold finds the same set of unordered pairs, in whatever order
/// the files came into the table.
pub proof fn lemma_rerun_finds_same_pairs(
    keys: Seq<Seq<char>>,
    prints: Seq<Seq<bool>>,
    keys_again: Seq<Seq<char>>,
    prints_again: Seq<Seq<bool>>,
    threshold: u32,
)
    requires
        distinct(keys),
        keys.len() == prints.len(),
        distinct(keys_again),
        keys_again.len() == prints_again.len(),
        mapping(keys, prints) == mapping(keys_again, prints_again),
    ensures
        unordered_matches(keys, prints, threshold) == unordered_matches(
            keys_again,
            prints_again,
            threshold,
        ),
{
    lemma_matches_follow_mapping(keys, prints, threshold);
    lemma_matches_follow_mapping(keys_again, prints_again, threshold);
}

} // verus!
