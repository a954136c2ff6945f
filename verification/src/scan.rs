//! The file scanner's filter: which entries of a directory walk are candidates.

use vstd::prelude::*;
use crate::paths::{extension_of, path_extension};

verus! {

/// What a directory walk found at a path.
#[derive(Clone, Copy, Debug, PartialEq, Eq, Structural)]
pub enum EntryKind {
    /// A regular file.
    File,
    /// A directory, a link, or anything else that is no regular file.
    Other,
    /// An entry that could not be enumerated or accessed.
    Unreadable,
}

/// One entry of a directory walk.
pub struct ScannedEntry {
    pub path: String,
    pub kind: EntryKind,
}

/// What the filter made of a walk.
pub struct ScanReport {
    /// The candidate paths, in the order of the walk.
    pub candidates: Vec<String>,
    /// The paths of the entries that could not be read, in the order of the walk.
    pub skipped: Vec<String>,
}

/// The extensions of the supported image formats. Upper case is not accepted.
pub open spec fn supported_extension(ext: Seq<char>) -> bool {
    ext == "jpg"@ || ext == "jpeg"@ || ext == "png"@ || ext == "webp"@
}

/// Whether an entry is a candidate for hashing: a regular file whose path ends
/// in a supported extension.
pub open spec fn candidate(entry: ScannedEntry) -> bool {
    &&& entry.kind == EntryKind::File
    &&& path_extension(entry.path@) matches Some(ext)
    &&& supported_extension(ext)
}

/// The paths of the candidates among `entries`, in their order.
pub open spec fn candidate_paths(entries: Seq<ScannedEntry>) -> Seq<Seq<char>>
    decreases entries.len(),
{
    if entries.len() == 0 {
        Seq::empty()
    } else if candidate(entries.last()) {
        candidate_paths(entries.drop_last()).push(entries.last().path@)
    } else {
        candidate_paths(entries.drop_last())
    }
}

/// The paths of the unreadable entries among `entries`, in their order.
pub open spec fn skipped_paths(entries: Seq<ScannedEntry>) -> Seq<Seq<char>>
    decreases entries.len(),
{
    if entries.len() == 0 {
        Seq::empty()
    } else if entries.last().kind == EntryKind::Unreadable {
        skipped_paths(entries.drop_last()).push(entries.last().path@)
    } else {
        skipped_paths(entries.drop_last())
    }
}

/// The text of each string of `strings`.
pub open spec fn texts(strings: Seq<String>) -> Seq<Seq<char>> {
    Seq::new(strings.len(), |i: int| strings[i]@)
}

/// Whether `ext` is the extension of a supported image format.
pub fn is_supported_extension(ext: &str) -> (r: bool)
    ensures
        r == supported_extension(ext@),
{
    let given = ext.to_owned();
    given == "jpg".to_owned() || given == "jpeg".to_owned() || given == "png".to_owned() || given
        == "webp".to_owned()
}

/// Whether `entry` is a candidate for hashing.
pub fn is_candidate(entry: &ScannedEntry) -> (r: bool)
    ensures
        r == candidate(*entry),
{
    if entry.kind != EntryKind::File {
        return false;
    }
    match extension_of(entry.path.as_str()) {
        Some(ext) => is_supported_extension(ext.as_str()),
        None => false,
    }
}

/// Filters a directory walk: keeps the candidates, and lists the entries that
/// could not be read. An unreadable entry ends nothing; the walk's other
/// entries are filtered as if it were not there.
pub fn select_candidates(entries: &Vec<ScannedEntry>) -> (r: ScanReport)
    ensures
        texts(r.candidates@) == candidate_paths(entries@),
        texts(r.skipped@) == skipped_paths(entries@),
{
    let mut candidates: Vec<String> = Vec::new();
    let mut skipped: Vec<String> = Vec::new();
    let mut i: usize = 0;
    assert(entries@.take(0) =~= Seq::empty());
    while i < entries.len()
        invariant
            i <= entries.len(),
            texts(candidates@) == candidate_paths(entries@.take(i as int)),
            texts(skipped@) == skipped_paths(entries@.take(i as int)),
        decreases entries.len() - i,
    {
        let entry = &entries[i];
        proof {
            let next = entries@.take(i + 1);
            assert(next.drop_last() =~= entries@.take(i as int));
            assert(next.last() == entries@[i as int]);
        }
        if is_candidate(entry) {
            candidates.push(entry.path.clone());
        } else if entry.kind == EntryKind::Unreadable {
            skipped.push(entry.path.clone());
        }
        i = i + 1;
    }
    assert(entries@.take(i as int) =~= entries@);
    ScanReport { candidates, skipped }
}


/// Whether entry number `e` is a candidate with the path `path`.
pub open spec fn candidate_at(entries: Seq<ScannedEntry>, e: int, path: Seq<char>) -> bool {
    0 <= e < entries.len() && candidate(entries[e]) && entries[e].path@ == path
}

/// Whether `path` is the path of an entry that passed the filter.
pub open spec fn passed_filter(entries: Seq<ScannedEntry>, path: Seq<char>) -> bool {
    exists|e: int| #[trigger] candidate_at(entries, e, path)
}

/// The candidate paths are the paths of the entries that pass the filter: a
/// path that is no regular file's, or has no supported extension, is never
/// among them, and no entry that passes is left out.
pub proof fn lemma_candidates_passed_filter(entries: Seq<ScannedEntry>)
    ensures
        forall|i: int|
            0 <= i < candidate_paths(entries).len() ==> passed_filter(
                entries,
                #[trigger] candidate_paths(entries)[i],
            ),
        forall|e: int|
            0 <= e < entries.len() && candidate(#[trigger] entries[e]) ==> candidate_paths(
                entries,
            ).contains(entries[e].path@),
        candidate_paths(entries).len() <= entries.len(),
    decreases entries.len(),
{
    if entries.len() > 0 {
        let shorter = entries.drop_last();
        let last = entries.len() - 1;
        lemma_candidates_passed_filter(shorter);
        let paths = candidate_paths(entries);
        let fewer = candidate_paths(shorter);
        assert forall|i: int| 0 <= i < paths.len() implies passed_filter(
            entries,
            #[trigger] paths[i],
        ) by {
            if i < fewer.len() {
                assert(paths[i] == fewer[i]);
                assert(passed_filter(shorter, fewer[i]));
                let e = choose|e: int| #[trigger] candidate_at(shorter, e, fewer[i]);
                assert(candidate_at(entries, e, paths[i]));
            } else {
                assert(candidate_at(entries, last, paths[i]));
            }
        }
        assert forall|e: int|
            0 <= e < entries.len() && candidate(#[trigger] entries[e]) implies paths.contains(
            entries[e].path@,
        ) by {
            if e < last {
                assert(shorter[e] == entries[e]);
                assert(fewer.contains(shorter[e].path@));
                let i = fewer.index_of(shorter[e].path@);
                assert(paths[i] == entries[e].path@);
            } else {
                assert(paths[paths.len() - 1] == entries[e].path@);
            }
        }
    }
}

} // verus!
