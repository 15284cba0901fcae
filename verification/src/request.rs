use crate::file_kind::kind_of_path;
use crate::file_kind::FileKind;
use crate::roots::covered;
use crate::roots::texts;
use crate::roots::RootSet;
use crate::trusted::decode;
use crate::trusted::path_starts_with;
use crate::trusted::percent_decoded;
use crate::trusted::starts_with;
use vstd::prelude::*;

verus! {

/// The most bytes of a file that are read ahead of handing it out.
pub const PRECACHE_READ_BYTES: u64 = 8 * 1024 * 1024;

/// The most bytes read ahead in one piece.
pub const PRECACHE_CHUNK_BYTES: usize = 1024 * 1024;

/// The time reading ahead may take, in milliseconds.
pub const PRECACHE_TIMEOUT_MS: u64 = 100;

/// What becomes of a file taken from the queue for a request.
#[derive(Debug, Copy, Clone, PartialEq, Eq, Structural)]
pub enum Disposition {
    /// The file is not wanted at all and leaves the supply chain.
    Discard,
    /// The file is not wanted by this request and goes back to the queue.
    Requeue,
    /// The file answers the request.
    Serve,
}

/// Whether `kind` is among `kinds`.
pub open spec fn wants_kind(kinds: Seq<FileKind>, kind: FileKind) -> bool {
    exists|i: int| 0 <= i < kinds.len() && #[trigger] kinds[i] == kind
}

/// What becomes of the file at `path` for a request that asks for files
/// under `roots` and of `kinds`, where an empty list asks for anything: a
/// file under none of the roots asked for is discarded; a file of a known
/// kind that was not asked for goes back to the queue; any other file is
/// served.
pub open spec fn triaged(path: Seq<char>, roots: Seq<Seq<char>>, kinds: Seq<FileKind>)
    -> Disposition {
    if roots.len() > 0 && !covered(roots, path) {
        Disposition::Discard
    } else if kinds.len() > 0 && kind_of_path(path).is_some() && !wants_kind(
        kinds,
        kind_of_path(path).unwrap(),
    ) {
        Disposition::Requeue
    } else {
        Disposition::Serve
    }
}

/// Whether `path` lies under one of `roots`.
fn under_any(path: &str, roots: &Vec<String>) -> (r: bool)
    ensures
        r == covered(texts(roots@), path@),
{
    let mut i: usize = 0;
    while i < roots.len()
        invariant
            i <= roots.len(),
            forall|j: int| 0 <= j < i ==> !path_starts_with(path@, #[trigger] texts(roots@)[j]),
        decreases roots.len() - i,
    {
        if starts_with(path, roots[i].as_str()) {
            assert(path_starts_with(path@, texts(roots@)[i as int]));
            return true;
        }
        i += 1;
    }
    false
}

/// Whether `kind` is among `kinds`.
fn has_kind(kinds: &Vec<FileKind>, kind: FileKind) -> (r: bool)
    ensures
        r == wants_kind(kinds@, kind),
{
    let mut i: usize = 0;
    while i < kinds.len()
        invariant
            i <= kinds.len(),
            forall|j: int| 0 <= j < i ==> kinds@[j] != kind,
        decreases kinds.len() - i,
    {
        if kinds[i] == kind {
            return true;
        }
        i += 1;
    }
    false
}

/// Decides what becomes of a file taken from the queue for a request.
pub fn triage(path: &str, roots: &Vec<String>, kinds: &Vec<FileKind>) -> (disposition: Disposition)
    ensures
        disposition == triaged(path@, texts(roots@), kinds@),
{
    if roots.len() > 0 && !under_any(path, roots) {
        return Disposition::Discard;
    }
    if kinds.len() > 0 {
        match FileKind::from_path(path) {
            Some(kind) => {
                if !has_kind(kinds, kind) {
                    return Disposition::Requeue;
                }
            },
            None => {},
        }
    }
    Disposition::Serve
}

/// How reading ahead in a file ended.
#[derive(Debug, Copy, Clone, PartialEq, Eq, Structural)]
pub enum Precached {
    Done,
    Failed,
    TimedOut,
}

/// What becomes of a file after reading ahead in it: a file that was read
/// is served, one that could not be read is dropped without a word, and
/// one that took too long goes back to the queue.
pub fn after_precache(outcome: Precached) -> (next: Option<Disposition>)
    ensures
        next == match outcome {
            Precached::Done => Some(Disposition::Serve),
            Precached::Failed => None,
            Precached::TimedOut => Some(Disposition::Requeue),
        },
{
    match outcome {
        Precached::Done => Some(Disposition::Serve),
        Precached::Failed => None,
        Precached::TimedOut => Some(Disposition::Requeue),
    }
}

/// The bytes still to read ahead after a read of `read` bytes.
pub open spec fn remaining_after(remaining: u64, read: usize) -> u64 {
    if read >= remaining {
        0
    } else {
        (remaining - read) as u64
    }
}

/// How far reading ahead in one file has to go.
#[derive(Debug, Copy, Clone, PartialEq, Eq, Structural)]
pub struct Precache {
    pub remaining: u64,
}

impl Precache {
    /// Reading ahead that has not begun.
    pub fn new() -> (precache: Precache)
        ensures
            precache.remaining == PRECACHE_READ_BYTES,
    {
        Precache { remaining: PRECACHE_READ_BYTES }
    }

    /// Whether there is anything left to read ahead.
    pub fn wants_more(&self) -> (r: bool)
        ensures
            r == (self.remaining != 0),
    {
        self.remaining != 0
    }

    /// Takes note of a read of `read` bytes and says whether to read on:
    /// not after the end of the file, which reads nothing, nor once enough
    /// was read.
    pub fn on_read(&mut self, read: usize) -> (more: bool)
        ensures
            read == 0 ==> !more && *final(self) == *old(self),
            read > 0 ==> final(self).remaining == remaining_after(old(self).remaining, read)
                && more == (final(self).remaining != 0),
    {
        if read == 0 {
            return false;
        }
        self.remaining = self.remaining.saturating_sub(read as u64);
        self.remaining != 0
    }
}

/// The answer to a request for a file by its path.
#[derive(Debug, Copy, Clone, PartialEq, Eq, Structural)]
pub enum PathCheck {
    /// The path lies under a root in use.
    Allowed,
    /// The path cannot be decoded.
    BadRequest,
    /// The path lies under no root in use.
    NotFound,
}

/// The answer for a path as decoded: a bad request where there is no
/// decoded path, else by the roots in use.
pub open spec fn checked(decoded: Option<Seq<char>>, enabled: Seq<Seq<char>>) -> PathCheck {
    match decoded {
        None => PathCheck::BadRequest,
        Some(path) => if covered(enabled, path) {
            PathCheck::Allowed
        } else {
            PathCheck::NotFound
        },
    }
}

/// The text of a string that may be missing.
pub open spec fn text_of(value: Option<String>) -> Option<Seq<char>> {
    match value {
        Some(text) => Some(text@),
        None => None,
    }
}

/// Answers a request for a path that was decoded already, or could not be.
pub fn check_decoded(decoded: &Option<String>, roots: &RootSet) -> (check: PathCheck)
    ensures
        check == checked(text_of(*decoded), roots.enabled()),
{
    match decoded {
        None => PathCheck::BadRequest,
        Some(path) => if roots.covers(path.as_str()) {
            PathCheck::Allowed
        } else {
            PathCheck::NotFound
        },
    }
}

/// Answers a request for the percent-encoded path `raw`.
pub fn validate_path(raw: &str, roots: &RootSet) -> (check: PathCheck)
    ensures
        check == checked(percent_decoded(raw@), roots.enabled()),
{
    let decoded = decode(raw);
    check_decoded(&decoded, roots)
}

} // verus!
