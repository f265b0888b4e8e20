//! The file-source boundary: which filesystem events are routed into the
//! ingestion pipeline.
//!
//! The watcher itself is external; it hands this module one event kind
//! and one path at a time, and only a file creation with the expected
//! extension is ingested.

use vstd::prelude::*;
use vstd::string::*;

verus! {

/// A filesystem notification, reduced to what the pipeline needs.
#[derive(Clone, Copy, Debug, PartialEq, Eq, Structural)]
pub enum WatchEventKind {
    Created,
    Modified,
    Removed,
    Other,
}

/// Whether the path names a log file: it ends in the watched extension.
pub open spec fn has_log_extension(s: Seq<char>) -> bool {
    s.len() >= 4 && s[s.len() - 4] == '.' && s[s.len() - 3] == 'c' && s[s.len() - 2] == 's' && s[
        s.len() - 1] == 'v'
}

/// Whether a path, already known to be a file or not, is a log file.
pub fn is_valid_file(path: &str, is_file: bool) -> (r: bool)
    ensures
        r == (is_file && has_log_extension(path@)),
{
    if !is_file {
        return false;
    }
    let n = path.unicode_len();
    if n < 4 {
        return false;
    }
    let c0 = path.get_char(n - 4);
    let c1 = path.get_char(n - 3);
    let c2 = path.get_char(n - 2);
    let c3 = path.get_char(n - 1);
    c0 == '.' && c1 == 'c' && c2 == 's' && c3 == 'v'
}

/// The one dispatch at the file-source boundary: only the creation of a
/// log file is routed into the pipeline; every other event is dropped.
pub fn should_ingest(kind: WatchEventKind, path: &str, is_file: bool) -> (r: bool)
    ensures
        r == (kind is Created && is_file && has_log_extension(path@)),
{
    match kind {
        WatchEventKind::Created => is_valid_file(path, is_file),
        _ => false,
    }
}

} // verus!
