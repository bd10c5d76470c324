//! The optional per-file metadata snapshot: byte size, line count and the
//! last-modified calendar date, gathered only when metadata headers are
//! requested and used solely to enrich the header line.

use crate::render::count_lines;
use vstd::prelude::*;

verus! {

/// A file's facts as the metadata header shows them, gathered afresh at
/// render time and never reused across files.
pub struct FileMetadataSnapshot {
    /// Byte size from the file system's metadata.
    pub size: u64,
    /// Line count of a fresh read of the full, untruncated content.
    pub line_count: usize,
    /// Modified date as `YYYY-MM-DD` in UTC, or `unknown`.
    pub modified_date: String,
}

/// What the calendar-date rendering (`YYYY-MM-DD`, UTC) of a Unix timestamp
/// is; `None` where the timestamp lies outside the date library's range.
pub uninterp spec fn utc_date_of(secs: i64) -> Option<Seq<char>>;

/// Relies on `chrono::DateTime::<Utc>::from_timestamp` and its `%Y-%m-%d`
/// formatting: the rendered date is a function of the timestamp alone, and
/// `from_timestamp` returns `None` exactly on timestamps whose date falls
/// outside the library's supported range.
#[verifier::external_body]
fn utc_date_string(secs: i64) -> (r: Option<String>)
    ensures
        r is Some <==> utc_date_of(secs) is Some,
        r matches Some(s) ==> utc_date_of(secs) == Some(s@),
{
    match chrono::DateTime::from_timestamp(secs, 0) {
        Some(dt) => Some(dt.format("%Y-%m-%d").to_string()),
        None => None,
    }
}

/// The modified-date text shown in a metadata header: the timestamp's
/// calendar date, or the literal `unknown` where no date can be computed.
pub open spec fn spec_modified_date(secs: i64) -> Seq<char> {
    match utc_date_of(secs) {
        Some(d) => d,
        None => "unknown"@,
    }
}

/// The value whose two's-complement bits equal `secs`, as a plain signed
/// reinterpretation of the unsigned timestamp produces it.
pub open spec fn spec_wrap_to_i64(secs: u64) -> i64 {
    if secs <= i64::MAX as u64 {
        secs as i64
    } else {
        (secs - 0x10000000000000000) as i64
    }
}

fn wrap_to_i64(secs: u64) -> (r: i64)
    ensures
        r == spec_wrap_to_i64(secs),
{
    if secs <= 0x7fffffffffffffff {
        secs as i64
    } else {
        -((u64::MAX - secs) as i64) - 1
    }
}

/// The modified-date text for a file whose modification time lies `secs`
/// whole seconds after the Unix epoch.
pub fn modified_date_from_epoch(secs: u64) -> (r: String)
    ensures
        r@ == spec_modified_date(spec_wrap_to_i64(secs)),
{
    match utc_date_string(wrap_to_i64(secs)) {
        Some(s) => s,
        None => "unknown".to_owned(),
    }
}

/// Assembles the snapshot for one file from plain facts: the size reported
/// by the file system, a fresh read of the full content, and the modified
/// time in whole seconds since the Unix epoch.
pub fn build_metadata_snapshot(size: u64, full_content: &str, mtime_secs: u64) -> (r:
    FileMetadataSnapshot)
    ensures
        r.size == size,
        r.line_count == crate::render::spec_lines(full_content@).len(),
        r.modified_date@ == spec_modified_date(spec_wrap_to_i64(mtime_secs)),
{
    FileMetadataSnapshot {
        size,
        line_count: count_lines(full_content),
        modified_date: modified_date_from_epoch(mtime_secs),
    }
}

} // verus!
