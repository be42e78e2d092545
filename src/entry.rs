//! Search results: the entry shown for each hit, with the file's metadata
//! where the file can still be read and best-effort values where it cannot.
use vstd::prelude::*;
use crate::paths::{display_name, display_name_of, extension, extension_of};

verus! {

/// The UTC calendar date `(year, month, day)` of a count of seconds since the
/// Unix epoch, where that date is in range.
pub uninterp spec fn utc_date(secs: i64) -> Option<(i32, u8, u8)>;

/// Relies on `time::OffsetDateTime::from_unix_timestamp` and its `date`: the
/// calendar date of a timestamp, or `None` out of range.
#[verifier::external_body]
fn utc_date_of(secs: i64) -> (r: Option<(i32, u8, u8)>)
    ensures
        r == utc_date(secs),
{
    let date = time::OffsetDateTime::from_unix_timestamp(secs).ok()?.date();
    Some((date.year(), u8::from(date.month()), date.day()))
}

/// A calendar date.
#[derive(Clone, Copy, Debug, PartialEq, Eq, Structural)]
pub struct CivilDate {
    pub year: i32,
    pub month: u8,
    pub day: u8,
}

/// What the file system said of a path when it was read.
#[derive(Clone, Copy, Debug, PartialEq, Eq, Structural)]
pub struct FileMeta {
    pub is_dir: bool,
    /// Size in bytes.
    pub len: u64,
    /// Seconds since the Unix epoch of the last change, where known.
    pub modified_secs: Option<u64>,
}

/// A file or directory as a search shows it.
#[derive(Clone, Debug)]
pub struct Entry {
    pub name: String,
    pub path: String,
    pub kind: String,
    pub size: u64,
    pub last_modified_date: CivilDate,
}

/// The kind of an entry: the extension of its name; where there is none,
/// `"folder"` or `"file"` as the metadata says, or `"unknown"` without it.
pub open spec fn kind_spec(name: Seq<char>, meta: Option<FileMeta>) -> Seq<char> {
    match extension(name) {
        Some(e) => e,
        None => match meta {
            Some(m) => if m.is_dir {
                "folder"@
            } else {
                "file"@
            },
            None => "unknown"@,
        },
    }
}

/// The date shown for an entry: that of its last change where the metadata
/// gives one in range, else `today`.
pub open spec fn date_spec(meta: Option<FileMeta>, today: CivilDate) -> CivilDate {
    match meta {
        Some(m) => match m.modified_secs {
            Some(s) => if s <= i64::MAX && utc_date(s as i64) is Some {
                let d = utc_date(s as i64)->0;
                CivilDate { year: d.0, month: d.1, day: d.2 }
            } else {
                today
            },
            None => today,
        },
        None => today,
    }
}

/// Whether `e` is the entry for `path`, given what was read of it.
pub open spec fn describes(e: Entry, path: Seq<char>, meta: Option<FileMeta>, today: CivilDate) -> bool {
    &&& e.path@ == path
    &&& e.name@ == display_name(path)
    &&& e.kind@ == kind_spec(display_name(path), meta)
    &&& e.size == (match meta {
        Some(m) => m.len,
        None => 0,
    })
    &&& e.last_modified_date == date_spec(meta, today)
}

/// The kind of an entry with this name (see `kind_spec`).
pub fn kind_of(name: &str, meta: Option<FileMeta>) -> (r: String)
    ensures
        r@ == kind_spec(name@, meta),
{
    match extension_of(name) {
        Some(e) => e,
        None => match meta {
            Some(m) => if m.is_dir {
                String::from_str("folder")
            } else {
                String::from_str("file")
            },
            None => String::from_str("unknown"),
        },
    }
}

/// The date shown for an entry (see `date_spec`).
pub fn modified_date(meta: Option<FileMeta>, today: CivilDate) -> (r: CivilDate)
    ensures
        r == date_spec(meta, today),
{
    if let Some(m) = meta {
        if let Some(s) = m.modified_secs {
            if s <= i64::MAX as u64 {
                if let Some(d) = utc_date_of(s as i64) {
                    return CivilDate { year: d.0, month: d.1, day: d.2 };
                }
            }
        }
    }
    today
}

/// The entry for one hit. `meta` is what the file system said of the path,
/// `None` where the file could not be read (a stale entry): its size is then
/// 0 and its date `today`.
pub fn describe(path: &str, meta: Option<FileMeta>, today: CivilDate) -> (e: Entry)
    ensures
        describes(e, path@, meta, today),
{
    let name = display_name_of(path);
    let kind = kind_of(name.as_str(), meta);
    let size = match meta {
        Some(m) => m.len,
        None => 0,
    };
    Entry {
        name,
        path: path.to_owned(),
        kind,
        size,
        last_modified_date: modified_date(meta, today),
    }
}

/// The entries for a list of hits, in order; `metas[i]` is what was read of
/// `paths[i]`.
pub fn enrich_hits(paths: &Vec<String>, metas: &Vec<Option<FileMeta>>, today: CivilDate) -> (r: Vec<Entry>)
    requires
        paths@.len() == metas@.len(),
    ensures
        r@.len() == paths@.len(),
        forall|i: int| 0 <= i < r@.len() ==> describes(#[trigger] r@[i], paths@[i]@, metas@[i], today),
{
    let mut out: Vec<Entry> = Vec::new();
    let mut i: usize = 0;
    while i < paths.len()
        invariant
            i <= paths@.len() == metas@.len(),
            out@.len() == i,
            forall|j: int| 0 <= j < i ==> describes(#[trigger] out@[j], paths@[j]@, metas@[j], today),
        decreases paths@.len() - i,
    {
        out.push(describe(paths[i].as_str(), metas[i], today));
        i = i + 1;
    }
    out
}

} // verus!
