//! What is reported of a pair of likely duplicates: each file's name, path,
//! size, resolution and format, and the distance between the two.

use vstd::prelude::*;
use crate::matcher::MatchedPair;
use crate::paths::{extension_of, file_name_of, path_extension, path_file_name};
use crate::table::FingerprintTable;

verus! {

/// Width and height of an image in pixels.
#[derive(Clone, Copy, Debug, PartialEq, Eq, Structural)]
pub struct Resolution {
    pub width: u32,
    pub height: u32,
}

/// What reading a file's metadata gave. A part that could not be read is `None`.
#[derive(Clone, Copy, Debug)]
pub struct FileProbe {
    /// Size of the file in bytes.
    pub size: Option<u64>,
    /// Width and height of the image.
    pub resolution: Option<Resolution>,
}

/// The probes of the two files of a pair.
#[derive(Clone, Copy, Debug)]
pub struct PairProbe {
    pub first: FileProbe,
    pub second: FileProbe,
}

/// The metadata reported of one file.
#[derive(Debug)]
pub struct FileInfo {
    /// Last component of the path; empty where the path has none.
    pub filename: String,
    /// The path as it stands in the fingerprint table.
    pub path: String,
    /// Size in bytes; zero where it could not be read.
    pub size: u64,
    /// Width and height; zero where they could not be read.
    pub resolution: Resolution,
    /// The path's extension; empty where the path has none.
    pub format: String,
}

/// A pair of files that are likely duplicates of each other.
#[derive(Debug)]
pub struct DuplicateCandidate {
    pub first: FileInfo,
    pub second: FileInfo,
    /// Hamming distance between the two fingerprints.
    pub distance: u32,
}

/// The text in `found`, or the empty text.
pub open spec fn text_or_empty(found: Option<Seq<char>>) -> Seq<char> {
    match found {
        Some(text) => text,
        None => Seq::empty(),
    }
}

/// The size that a probe reports: zero where it read none.
pub open spec fn size_or_zero(probe: FileProbe) -> u64 {
    match probe.size {
        Some(size) => size,
        None => 0,
    }
}

/// The resolution that a probe reports: zero by zero where it read none.
pub open spec fn resolution_or_zero(probe: FileProbe) -> Resolution {
    match probe.resolution {
        Some(resolution) => resolution,
        None => (Resolution { width: 0, height: 0 }),
    }
}

/// Whether `info` is what is reported of the file at `path` with `probe`.
pub open spec fn describes(info: FileInfo, path: Seq<char>, probe: FileProbe) -> bool {
    &&& info.filename@ == text_or_empty(path_file_name(path))
    &&& info.path@ == path
    &&& info.size == size_or_zero(probe)
    &&& info.resolution == resolution_or_zero(probe)
    &&& info.format@ == text_or_empty(path_extension(path))
}

/// Whether `candidate` reports the match `m` of the files at `keys`, with the
/// metadata of `probe`.
pub open spec fn reports(
    candidate: DuplicateCandidate,
    keys: Seq<Seq<char>>,
    m: (int, int, nat),
    probe: PairProbe,
) -> bool {
    &&& describes(candidate.first, keys[m.0], probe.first)
    &&& describes(candidate.second, keys[m.1], probe.second)
    &&& candidate.distance == m.2
}

/// The metadata reported of the file at `path`. Missing metadata does not
/// fail: a size or a resolution that could not be read is reported as zero.
pub fn get_file_info(path: &String, probe: &FileProbe) -> (r: FileInfo)
    ensures
        describes(r, path@, *probe),
{
    let filename = match file_name_of(path.as_str()) {
        Some(name) => name,
        None => String::new(),
    };
    let format = match extension_of(path.as_str()) {
        Some(ext) => ext,
        None => String::new(),
    };
    let size = match probe.size {
        Some(size) => size,
        None => 0,
    };
    let resolution = match probe.resolution {
        Some(resolution) => resolution,
        None => Resolution { width: 0, height: 0 },
    };
    FileInfo { filename, path: path.clone(), size, resolution, format }
}

/// The report of one matched pair of the table.
pub fn assemble(table: &FingerprintTable, pair: &MatchedPair, probe: &PairProbe) -> (r:
    DuplicateCandidate)
    requires
        pair.first < table.keys().len(),
        pair.second < table.keys().len(),
    ensures
        reports(r, table.keys(), crate::matcher::pair_view(*pair), *probe),
{
    DuplicateCandidate {
        first: get_file_info(table.path(pair.first), &probe.first),
        second: get_file_info(table.path(pair.second), &probe.second),
        distance: pair.distance,
    }
}

} // verus!
