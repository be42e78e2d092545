//! The indexer: when to rebuild, the bulk build over walked entries, and the
//! incremental operations that the watcher and the query service use.
use vstd::prelude::*;
use crate::index_store::{apply_ops, has_path, hit_count, is_hit, matching, name_terms, shares, IndexError, TantivyIndex};
use crate::paths::{display_name, display_name_of, excluded_by, is_excluded, same_text, texts};
use crate::state::{pair_texts, put_all, StoreError, Vaultify};
use crate::text::{decimal, decimal_text, lemma_decimal_round_trip, number_of, parse_number};

verus! {

/// How long a build stays fresh: fifteen days, in seconds.
pub const FRESHNESS_WINDOW_SECS: u64 = 15 * 24 * 60 * 60;

/// The bulk build publishes its running count after this many entries.
pub const PUBLISH_EVERY: u64 = 20000;

/// The most hits a query returns.
pub const SEARCH_LIMIT: usize = 100;

/// Why the index has to be rebuilt.
#[derive(Clone, Copy, Debug, PartialEq, Eq, Structural)]
pub enum RebuildReason {
    /// The last build started more than the freshness window ago, or its
    /// time is not known.
    Stale,
    /// The stored version differs from the running one.
    VersionChanged,
    /// `refresh` asks for a rebuild.
    RefreshRequested,
    /// No build has completed.
    NotIndexed,
}

/// Why a build step failed.
#[derive(Clone, Copy, Debug, PartialEq, Eq, Structural)]
pub enum BuildError {
    Store(StoreError),
    Index(IndexError),
}

/// An entry that the walker yields. A list of them holds `None` where the
/// walker failed on an entry.
pub struct WalkEntry {
    pub file_name: String,
    pub path: String,
}

/// Whether `m` holds `v` under `k`.
pub open spec fn holds(m: Map<Seq<char>, Seq<char>>, k: Seq<char>, v: Seq<char>) -> bool {
    m.contains_key(k) && m[k] == v
}

/// The time of the last build start that `m` records, where it records one.
pub open spec fn last_indexed(m: Map<Seq<char>, Seq<char>>) -> Option<u64> {
    if m.contains_key("last_indexed"@) {
        number_of(m["last_indexed"@])
    } else {
        None
    }
}

/// Why the index must be rebuilt at time `now` by a program of version
/// `version`, given the store `m`; `None` where it is up to date.
pub open spec fn rebuild_reason(m: Map<Seq<char>, Seq<char>>, now: u64, version: Seq<char>) -> Option<
    RebuildReason,
> {
    let last = last_indexed(m);
    if last is None || (now >= last->0 && now - last->0 > FRESHNESS_WINDOW_SECS) {
        Some(RebuildReason::Stale)
    } else if !holds(m, "version"@, version) {
        Some(RebuildReason::VersionChanged)
    } else if holds(m, "refresh"@, "true"@) {
        Some(RebuildReason::RefreshRequested)
    } else if !holds(m, "indexed"@, "true"@) {
        Some(RebuildReason::NotIndexed)
    } else {
        None
    }
}

/// The pairs written, at once, when a rebuild starts.
pub open spec fn reset_entries(version: Seq<char>) -> Seq<(Seq<char>, Seq<char>)> {
    seq![
        ("indexed"@, "false"@),
        ("refresh"@, "false"@),
        ("indexed_files"@, "0"@),
        ("indexed_progress"@, "0.0"@),
        ("version"@, version),
    ]
}

/// A refresh request, a version change and a build older than the freshness
/// window each make a rebuild due, whatever else the store holds.
pub proof fn lemma_rebuild_triggers(m: Map<Seq<char>, Seq<char>>, now: u64, version: Seq<char>)
    ensures
        holds(m, "refresh"@, "true"@) ==> rebuild_reason(m, now, version) is Some,
        !holds(m, "version"@, version) ==> rebuild_reason(m, now, version) is Some,
        (last_indexed(m) matches Some(t) && now >= t && now - t > FRESHNESS_WINDOW_SECS)
            ==> rebuild_reason(m, now, version) == Some(RebuildReason::Stale),
{
}

/// Whether every `indexed_files` value written in `log` reads as a count of
/// at least `lo`, at most `hi`, and at least each such count written before
/// it.
pub open spec fn counts_in_order(log: Seq<(Seq<char>, Seq<char>)>, lo: nat, hi: nat) -> bool
    decreases log.len(),
{
    if log.len() == 0 {
        true
    } else if log.last().0 == "indexed_files"@ {
        &&& number_of(log.last().1) matches Some(c)
        &&& lo <= c <= hi
        &&& counts_in_order(log.drop_last(), lo, c as nat)
    } else {
        counts_in_order(log.drop_last(), lo, hi)
    }
}

proof fn lemma_counts_widen(log: Seq<(Seq<char>, Seq<char>)>, lo: nat, hi: nat, hi2: nat)
    requires
        counts_in_order(log, lo, hi),
        hi <= hi2,
    ensures
        counts_in_order(log, lo, hi2),
    decreases log.len(),
{
    if log.len() > 0 && log.last().0 != "indexed_files"@ {
        lemma_counts_widen(log.drop_last(), lo, hi, hi2);
    }
}

/// The counts written by one call and then by the next, which starts from
/// the count where the first left off, stay in order together.
pub proof fn lemma_counts_concat(
    a: Seq<(Seq<char>, Seq<char>)>,
    b: Seq<(Seq<char>, Seq<char>)>,
    lo: nat,
    mid: nat,
    hi: nat,
)
    requires
        counts_in_order(a, lo, mid),
        counts_in_order(b, mid, hi),
        lo <= mid <= hi,
    ensures
        counts_in_order(a + b, lo, hi),
    decreases b.len(),
{
    if b.len() == 0 {
        assert(a + b =~= a);
        lemma_counts_widen(a, lo, mid, hi);
    } else {
        assert((a + b).drop_last() =~= a + b.drop_last());
        assert((a + b).last() == b.last());
        if b.last().0 == "indexed_files"@ {
            let c = number_of(b.last().1)->0 as nat;
            lemma_counts_concat(a, b.drop_last(), lo, mid, c);
        } else {
            lemma_counts_concat(a, b.drop_last(), lo, mid, hi);
        }
    }
}

/// The values of `indexed_files` that a bulk build writes, read in the
/// order they were written, never decrease.
pub proof fn lemma_published_counts_nondecreasing(
    log: Seq<(Seq<char>, Seq<char>)>,
    lo: nat,
    hi: nat,
    i: int,
    j: int,
)
    requires
        counts_in_order(log, lo, hi),
        0 <= i < j < log.len(),
        log[i].0 == "indexed_files"@,
        log[j].0 == "indexed_files"@,
    ensures
        number_of(log[i].1) is Some,
        number_of(log[j].1) is Some,
        number_of(log[i].1)->0 <= number_of(log[j].1)->0,
    decreases log.len(),
{
    let prefix = log.drop_last();
    if j < log.len() - 1 {
        if log.last().0 == "indexed_files"@ {
            lemma_published_counts_nondecreasing(prefix, lo, number_of(log.last().1)->0 as nat, i, j);
        } else {
            lemma_published_counts_nondecreasing(prefix, lo, hi, i, j);
        }
        assert(prefix[i] == log[i] && prefix[j] == log[j]);
    } else {
        let c = number_of(log.last().1)->0 as nat;
        lemma_count_bound(prefix, lo, c, i);
        assert(prefix[i] == log[i]);
    }
}

proof fn lemma_count_bound(log: Seq<(Seq<char>, Seq<char>)>, lo: nat, hi: nat, i: int)
    requires
        counts_in_order(log, lo, hi),
        0 <= i < log.len(),
        log[i].0 == "indexed_files"@,
    ensures
        number_of(log[i].1) matches Some(c) && lo <= c <= hi,
    decreases log.len(),
{
    let prefix = log.drop_last();
    if i < log.len() - 1 {
        if log.last().0 == "indexed_files"@ {
            let c = number_of(log.last().1)->0 as nat;
            lemma_count_bound(prefix, lo, c, i);
        } else {
            lemma_count_bound(prefix, lo, hi, i);
        }
        assert(prefix[i] == log[i]);
    }
}

fn text_pair(k: &str, v: &str) -> (r: (String, String))
    ensures
        r.0@ == k@,
        r.1@ == v@,
{
    (k.to_owned(), v.to_owned())
}

fn holds_text(vault: &Vaultify, key: &str, value: &str) -> (r: Result<bool, StoreError>)
    ensures
        r matches Ok(b) ==> b == holds(vault.entries(), key@, value@),
        r matches Err(e) ==> e == StoreError::Unavailable,
{
    match vault.lookup(key)? {
        Some(v) => Ok(same_text(v.as_str(), value)),
        None => Ok(false),
    }
}

/// Why the index must be rebuilt now (see `rebuild_reason`).
pub fn rebuild_needed(vault: &Vaultify, now: u64, version: &str) -> (r: Result<
    Option<RebuildReason>,
    StoreError,
>)
    ensures
        r matches Ok(x) ==> x == rebuild_reason(vault.entries(), now, version@),
        r matches Err(e) ==> e == StoreError::Unavailable,
{
    let last = match vault.lookup("last_indexed")? {
        Some(t) => parse_number(t.as_str()),
        None => None,
    };
    let stale = match last {
        Some(t) => now >= t && now - t > FRESHNESS_WINDOW_SECS,
        None => true,
    };
    if stale {
        return Ok(Some(RebuildReason::Stale));
    }
    if !holds_text(vault, "version", version)? {
        return Ok(Some(RebuildReason::VersionChanged));
    }
    if holds_text(vault, "refresh", "true")? {
        return Ok(Some(RebuildReason::RefreshRequested));
    }
    if !holds_text(vault, "indexed", "true")? {
        return Ok(Some(RebuildReason::NotIndexed));
    }
    Ok(None)
}

/// Marks a rebuild as started (see `reset_entries`), in one write.
pub fn reset_index_state(vault: &mut Vaultify, version: &str) -> (r: Result<(), StoreError>)
    ensures
        r is Ok ==> final(vault).entries() == put_all(old(vault).entries(), reset_entries(version@)),
        r matches Err(e) ==> e == StoreError::Unavailable,
        final(vault).tantivy_path_spec() == old(vault).tantivy_path_spec(),
{
    let mut batch: Vec<(String, String)> = Vec::new();
    batch.push(text_pair("indexed", "false"));
    batch.push(text_pair("refresh", "false"));
    batch.push(text_pair("indexed_files", "0"));
    batch.push(text_pair("indexed_progress", "0.0"));
    batch.push(text_pair("version", version));
    assert(pair_texts(batch@) =~= reset_entries(version@));
    vault.batch_set(&batch)
}

/// Whether the index is up to date at time `now` for version `version`. Where
/// it is not, the store is reset for a rebuild (see `reset_entries`), and the
/// caller wipes the index directory and runs the bulk build.
pub fn get_indexed_status(vault: &mut Vaultify, now: u64, version: &str) -> (r: Result<bool, StoreError>)
    ensures
        r matches Ok(b) ==> b == (rebuild_reason(old(vault).entries(), now, version@) is None),
        r matches Ok(true) ==> final(vault).entries() == old(vault).entries(),
        r matches Ok(false) ==> final(vault).entries() == put_all(
            old(vault).entries(),
            reset_entries(version@),
        ),
        r matches Err(e) ==> e == StoreError::Unavailable,
        final(vault).tantivy_path_spec() == old(vault).tantivy_path_spec(),
{
    match rebuild_needed(vault, now, version)? {
        None => Ok(true),
        Some(_) => {
            reset_index_state(vault, version)?;
            Ok(false)
        },
    }
}

/// Whether the initial build has completed, so the watcher may act.
pub fn is_indexed(vault: &Vaultify) -> (r: Result<bool, StoreError>)
    ensures
        r matches Ok(b) ==> b == holds(vault.entries(), "indexed"@, "true"@),
        r matches Err(e) ==> e == StoreError::Unavailable,
{
    holds_text(vault, "indexed", "true")
}


/// Whether a character has the Unicode property White_Space.
pub open spec fn is_white_space(c: char) -> bool {
    let u = c as u32;
    (0x9 <= u <= 0xd) || u == 0x20 || u == 0x85 || u == 0xa0 || u == 0x1680 || (0x2000 <= u
        <= 0x200a) || u == 0x2028 || u == 0x2029 || u == 0x202f || u == 0x205f || u == 0x3000
}

/// `s` without the white space that begins it.
pub open spec fn trim_start(s: Seq<char>) -> Seq<char>
    decreases s.len(),
{
    if s.len() > 0 && is_white_space(s[0]) {
        trim_start(s.drop_first())
    } else {
        s
    }
}

/// `s` without the white space that ends it.
pub open spec fn trim_end(s: Seq<char>) -> Seq<char>
    decreases s.len(),
{
    if s.len() > 0 && is_white_space(s.last()) {
        trim_end(s.drop_last())
    } else {
        s
    }
}

/// The text left of a query once the white space around it is taken off.
pub open spec fn trimmed(s: Seq<char>) -> Seq<char> {
    trim_end(trim_start(s))
}

/// Relies on `str::trim`: the query without the leading and trailing
/// characters that have the Unicode property White_Space.
#[verifier::external_body]
fn trim_text(s: &str) -> (r: &str)
    ensures
        r@ == trimmed(s@),
{
    s.trim()
}

/// The additions that a bulk build queues for walked entries: one for each
/// entry read without failure whose path no excluded prefix starts, named by
/// the entry's file name.
pub open spec fn planned_adds(entries: Seq<Option<WalkEntry>>, excludes: Seq<Seq<char>>) -> Seq<(bool, Seq<Seq<char>>, Seq<char>)>
    decreases entries.len(),
{
    if entries.len() == 0 {
        Seq::empty()
    } else {
        let prev = planned_adds(entries.drop_last(), excludes);
        match entries.last() {
            Some(e) => if excluded_by(e.path@, excludes) {
                prev
            } else {
                prev.push((true, name_terms(e.file_name@), e.path@))
            },
            None => prev,
        }
    }
}

/// Whether every operation of `ops` is one of `plan`.
pub open spec fn drawn_from(ops: Seq<(bool, Seq<Seq<char>>, Seq<char>)>, plan: Seq<(bool, Seq<Seq<char>>, Seq<char>)>) -> bool {
    forall|i: int| 0 <= i < ops.len() ==> plan.contains(#[trigger] ops[i])
}

/// The progress text of `done` roots out of `total`: a percentage with one
/// decimal, rounded down.
pub open spec fn progress_text(done: nat, total: nat) -> Seq<char> {
    let tenths = done * 1000 / total;
    decimal(tenths / 10) + "."@ + decimal(tenths % 10)
}

/// The top-level folders split by the exclusion list.
pub struct RootPlan {
    /// The folders that the list names: they are skipped whole.
    pub skipped: Vec<String>,
    /// The folders to walk, in order.
    pub remaining: Vec<String>,
    /// The exclusion list without the skipped folders, for the walks below.
    pub excludes: Vec<String>,
}

/// The items of `s` that `list` holds (`keep == true`) or does not hold.
pub open spec fn sift(s: Seq<Seq<char>>, list: Seq<Seq<char>>, keep: bool) -> Seq<Seq<char>>
    decreases s.len(),
{
    if s.len() == 0 {
        s
    } else {
        let prev = sift(s.drop_last(), list, keep);
        if list.contains(s.last()) == keep {
            prev.push(s.last())
        } else {
            prev
        }
    }
}

fn contains_text(list: &Vec<String>, s: &str) -> (r: bool)
    ensures
        r == texts(list@).contains(s@),
{
    let mut i: usize = 0;
    while i < list.len()
        invariant
            i <= list@.len(),
            forall|j: int| 0 <= j < i ==> texts(list@)[j] != s@,
        decreases list@.len() - i,
    {
        if same_text(list[i].as_str(), s) {
            assert(texts(list@)[i as int] == s@);
            return true;
        }
        i = i + 1;
    }
    false
}

fn sift_list(s: &Vec<String>, list: &Vec<String>, keep: bool) -> (r: Vec<String>)
    ensures
        texts(r@) == sift(texts(s@), texts(list@), keep),
{
    let mut out: Vec<String> = Vec::new();
    let mut i: usize = 0;
    while i < s.len()
        invariant
            i <= s@.len(),
            texts(out@) == sift(texts(s@).subrange(0, i as int), texts(list@), keep),
        decreases s@.len() - i,
    {
        let inside = contains_text(list, s[i].as_str());
        proof {
            assert(texts(s@).subrange(0, i + 1).drop_last() =~= texts(s@).subrange(0, i as int));
        }
        if inside == keep {
            out.push(s[i].clone());
            assert(texts(out@) =~= sift(texts(s@).subrange(0, i as int), texts(list@), keep).push(
                s@[i as int]@,
            ));
        }
        i = i + 1;
    }
    assert(texts(s@).subrange(0, s@.len() as int) =~= texts(s@));
    out
}

/// Splits the top-level folders: those that the exclusion list names are
/// skipped, the others walked with the rest of the list.
pub fn plan_roots(subfolders: &Vec<String>, excludes: &Vec<String>) -> (r: RootPlan)
    ensures
        texts(r.skipped@) == sift(texts(subfolders@), texts(excludes@), true),
        texts(r.remaining@) == sift(texts(subfolders@), texts(excludes@), false),
        texts(r.excludes@) == sift(texts(excludes@), texts(r.skipped@), false),
{
    let skipped = sift_list(subfolders, excludes, true);
    let remaining = sift_list(subfolders, excludes, false);
    let rest = sift_list(excludes, &skipped, false);
    RootPlan { skipped, remaining, excludes: rest }
}

/// Writes `count` as `indexed_files`; counts at least `lo` and at most `count`
/// written in order before it stay in order with it.
fn publish_count(vault: &mut Vaultify, count: u64, lo: u64) -> (r: Result<(), BuildError>)
    requires
        lo <= count,
    ensures
        r is Ok ==> final(vault).entries() == old(vault).entries().insert(
            "indexed_files"@,
            decimal(count as nat),
        ),
        final(vault).writes().len() >= old(vault).writes().len(),
        final(vault).writes().subrange(0, old(vault).writes().len() as int) == old(vault).writes(),
        forall|start: int|
            0 <= start <= old(vault).writes().len() && counts_in_order(
                #[trigger] old(vault).writes().subrange(start, old(vault).writes().len() as int),
                lo as nat,
                count as nat,
            ) ==> counts_in_order(
                final(vault).writes().subrange(start, final(vault).writes().len() as int),
                lo as nat,
                count as nat,
            ),
{
    let ghost before = vault.writes();
    match vault.set("indexed_files", decimal_text(count)) {
        Ok(()) => {},
        Err(e) => {
            assert(vault.writes().subrange(0, before.len() as int) =~= before);
            return Err(BuildError::Store(e));
        },
    }
    proof {
        lemma_decimal_round_trip(count as nat);
        let after = vault.writes();
        assert(after.subrange(0, before.len() as int) =~= before);
        assert forall|start: int|
            0 <= start <= before.len() && counts_in_order(
                #[trigger] before.subrange(start, before.len() as int),
                lo as nat,
                count as nat,
            ) implies counts_in_order(
            after.subrange(start, after.len() as int),
            lo as nat,
            count as nat,
        ) by {
            assert(after.subrange(start, after.len() as int).drop_last() =~= before.subrange(
                start,
                before.len() as int,
            ));
        }
    }
    Ok(())
}

/// Queues an addition for each walked entry that no excluded prefix starts
/// and counts every entry in `count_total`, publishing the count as
/// `indexed_files` every `PUBLISH_EVERY` entries and at the end, then
/// commits. An addition that the writer refuses is skipped: `Ok(k)` says
/// that `k` of the planned additions were refused.
pub fn index_files(
    store: &mut TantivyIndex,
    vault: &mut Vaultify,
    entries: &Vec<Option<WalkEntry>>,
    excludes: &Vec<String>,
    count_total: &mut u64,
) -> (r: Result<u64, BuildError>)
    requires
        *old(count_total) + entries@.len() <= u64::MAX,
    ensures
        *final(count_total) >= *old(count_total),
        r is Ok ==> *final(count_total) == *old(count_total) + entries@.len(),
        r is Ok ==> final(vault).entries() == old(vault).entries().insert(
            "indexed_files"@,
            decimal(*final(count_total) as nat),
        ),
        r is Ok ==> final(store).pending() == Seq::<(bool, Seq<Seq<char>>, Seq<char>)>::empty(),
        final(vault).writes().len() >= old(vault).writes().len(),
        final(vault).writes().subrange(0, old(vault).writes().len() as int) == old(vault).writes(),
        counts_in_order(
            final(vault).writes().subrange(
                old(vault).writes().len() as int,
                final(vault).writes().len() as int,
            ),
            *old(count_total) as nat,
            *final(count_total) as nat,
        ),
        r is Ok ==> exists|ops: Seq<(bool, Seq<Seq<char>>, Seq<char>)>|
            {
                &&& drawn_from(ops, planned_adds(entries@, texts(excludes@)))
                &&& final(store).docs() == apply_ops(old(store).docs(), old(store).pending() + ops)
            },
        r == Ok::<u64, BuildError>(0) ==> final(store).docs() == apply_ops(
            old(store).docs(),
            old(store).pending() + planned_adds(entries@, texts(excludes@)),
        ),
{
    let first: u64 = *count_total;
    let ghost plan = planned_adds(entries@, texts(excludes@));
    let ghost mut added: Seq<(bool, Seq<Seq<char>>, Seq<char>)> = Seq::empty();
    let mut refused: u64 = 0;
    let mut i: usize = 0;
    while i < entries.len()
        invariant
            i <= entries@.len(),
            *count_total == *old(count_total) + i,
            *old(count_total) + entries@.len() <= u64::MAX,
            first == *old(count_total),
            refused <= i,
            store.docs() == old(store).docs(),
            store.pending() == old(store).pending() + added,
            drawn_from(added, planned_adds(entries@.subrange(0, i as int), texts(excludes@))),
            refused == 0 ==> added == planned_adds(entries@.subrange(0, i as int), texts(excludes@)),
            vault.entries() == old(vault).entries() || vault.entries() == old(vault).entries().insert(
                "indexed_files"@,
                vault.entries()["indexed_files"@],
            ),
            vault.writes().len() >= old(vault).writes().len(),
            vault.writes().subrange(0, old(vault).writes().len() as int) == old(vault).writes(),
            counts_in_order(
                vault.writes().subrange(old(vault).writes().len() as int, vault.writes().len() as int),
                *old(count_total) as nat,
                *count_total as nat,
            ),
        decreases entries@.len() - i,
    {
        let ghost before = entries@.subrange(0, i as int);
        proof {
            assert(entries@.subrange(0, i + 1).drop_last() =~= before);
        }
        *count_total = *count_total + 1;
        proof {
            lemma_counts_widen(
                vault.writes().subrange(old(vault).writes().len() as int, vault.writes().len() as int),
                *old(count_total) as nat,
                (*count_total - 1) as nat,
                *count_total as nat,
            );
        }
        match &entries[i] {
            Some(e) => {
                if !is_excluded(e.path.as_str(), excludes) {
                    match store.add(e.file_name.as_str(), e.path.as_str()) {
                        Ok(()) => {
                            proof {
                                assert(planned_adds(entries@.subrange(0, i + 1), texts(excludes@))
                                    == planned_adds(before, texts(excludes@)).push((true, name_terms(e.file_name@), e.path@)));
                                added = added.push((true, name_terms(e.file_name@), e.path@));
                                assert forall|j: int| 0 <= j < added.len() implies planned_adds(
                                    entries@.subrange(0, i + 1),
                                    texts(excludes@),
                                ).contains(#[trigger] added[j]) by {
                                    let pl = planned_adds(before, texts(excludes@));
                                    if j < added.len() - 1 {
                                        let k = choose|k: int| 0 <= k < pl.len() && pl[k] == added[j];
                                        assert(pl.push((true, name_terms(e.file_name@), e.path@))[k] == added[j]);
                                    } else {
                                        assert(pl.push((true, name_terms(e.file_name@), e.path@))[pl.len() as int] == added[j]);
                                    }
                                }
                                assert(old(store).pending() + added =~= (old(store).pending()
                                    + added.drop_last()).push((true, name_terms(e.file_name@), e.path@)));
                            }
                        },
                        Err(_) => {
                            refused = refused + 1;
                            proof {
                                let pl = planned_adds(before, texts(excludes@));
                                assert forall|j: int| 0 <= j < added.len() implies pl.push(
                                    (true, name_terms(e.file_name@), e.path@),
                                ).contains(#[trigger] added[j]) by {
                                    let k = choose|k: int| 0 <= k < pl.len() && pl[k] == added[j];
                                    assert(pl.push((true, name_terms(e.file_name@), e.path@))[k] == added[j]);
                                }
                            }
                        },
                    }
                }
            },
            None => {},
        }
        if *count_total % PUBLISH_EVERY == 0 {
            let ghost mid = vault.writes();
            publish_count(vault, *count_total, first)?;
            assert(vault.writes().subrange(0, old(vault).writes().len() as int) =~= mid.subrange(
                0,
                old(vault).writes().len() as int,
            ));
        }
        i = i + 1;
    }
    proof {
        assert(entries@.subrange(0, entries@.len() as int) =~= entries@);
    }
    match store.commit() {
        Ok(()) => {},
        Err(e) => return Err(BuildError::Index(e)),
    }
    let ghost mid = vault.writes();
    publish_count(vault, *count_total, first)?;
    assert(vault.writes().subrange(0, old(vault).writes().len() as int) =~= mid.subrange(
        0,
        old(vault).writes().len() as int,
    ));
    proof {
        assert(vault.entries() =~= old(vault).entries().insert(
            "indexed_files"@,
            decimal(*count_total as nat),
        ));
    }
    Ok(refused)
}


/// Publishes `indexed_progress` after `done` top-level folders out of
/// `total` (see `progress_text`).
pub fn record_progress(vault: &mut Vaultify, done: u64, total: u64) -> (r: Result<(), StoreError>)
    requires
        0 < total <= u64::MAX / 1000,
        done <= total,
    ensures
        r is Ok ==> final(vault).entries() == old(vault).entries().insert(
            "indexed_progress"@,
            progress_text(done as nat, total as nat),
        ),
        r is Ok ==> final(vault).writes() == old(vault).writes().push(
            ("indexed_progress"@, progress_text(done as nat, total as nat)),
        ),
        r is Err ==> final(vault).writes() == old(vault).writes(),
{
    assert(done * 1000 <= total * 1000) by (nonlinear_arith)
        requires
            done <= total,
    ;
    let tenths = done * 1000 / total;
    let mut text = decimal_text(tenths / 10);
    text.append(".");
    let tail = decimal_text(tenths % 10);
    text.append(tail.as_str());
    vault.set("indexed_progress", text)
}

/// A bulk build under way: how many top-level folders are done out of how
/// many, the running count of entries, and where in the store's write record
/// the build began.
pub struct BuildState {
    done: u64,
    total: u64,
    count: u64,
    start: Ghost<int>,
}

impl BuildState {
    /// The folders done.
    pub closed spec fn done_spec(&self) -> nat {
        self.done as nat
    }

    /// The folders in all.
    pub closed spec fn total_spec(&self) -> nat {
        self.total as nat
    }

    /// The entries counted so far.
    pub closed spec fn count_spec(&self) -> nat {
        self.count as nat
    }

    /// The writes made to `vault` since the build began.
    pub closed spec fn build_writes(&self, vault: &Vaultify) -> Seq<(Seq<char>, Seq<char>)> {
        vault.writes().subrange(self.start@, vault.writes().len() as int)
    }

    /// Every `indexed_files` value written since the build began reads as a
    /// count no greater than the running count, in order.
    pub closed spec fn inv(&self, vault: &Vaultify) -> bool {
        &&& self.done <= self.total
        &&& 0 < self.total <= u64::MAX / 1000
        &&& 0 <= self.start@ <= vault.writes().len()
        &&& counts_in_order(self.build_writes(vault), 0, self.count as nat)
    }

    /// Starts a build over `total` top-level folders.
    pub fn begin(vault: &Vaultify, total: u64) -> (r: BuildState)
        requires
            0 < total <= u64::MAX / 1000,
        ensures
            r.inv(vault),
            r.done_spec() == 0,
            r.total_spec() == total,
            r.count_spec() == 0,
    {
        let r = BuildState { done: 0, total, count: 0, start: Ghost(vault.writes().len() as int) };
        assert(r.build_writes(vault) =~= Seq::<(Seq<char>, Seq<char>)>::empty());
        r
    }

    /// Throughout a build, the `indexed_files` values written, read in the
    /// order they were written, never decrease.
    pub proof fn lemma_counts_never_decrease(&self, vault: &Vaultify, i: int, j: int)
        requires
            self.inv(vault),
            0 <= i < j < self.build_writes(vault).len(),
            self.build_writes(vault)[i].0 == "indexed_files"@,
            self.build_writes(vault)[j].0 == "indexed_files"@,
        ensures
            number_of(self.build_writes(vault)[i].1) is Some,
            number_of(self.build_writes(vault)[j].1) is Some,
            number_of(self.build_writes(vault)[i].1)->0 <= number_of(
                self.build_writes(vault)[j].1,
            )->0,
    {
        lemma_published_counts_nondecreasing(self.build_writes(vault), 0, self.count as nat, i, j);
    }

    /// The entries counted so far.
    pub fn count(&self) -> (r: u64)
        ensures
            r == self.count_spec(),
    {
        self.count
    }

    /// Indexes the walked entries of the next top-level folder (see
    /// `index_files`), then publishes the progress.
    pub fn build_root(
        &mut self,
        store: &mut TantivyIndex,
        vault: &mut Vaultify,
        entries: &Vec<Option<WalkEntry>>,
        excludes: &Vec<String>,
    ) -> (r: Result<u64, BuildError>)
        requires
            old(self).inv(old(vault)),
            old(self).done_spec() < old(self).total_spec(),
            old(self).count_spec() + entries@.len() <= u64::MAX,
        ensures
            final(self).inv(final(vault)),
            final(self).total_spec() == old(self).total_spec(),
            r is Ok ==> final(self).done_spec() == old(self).done_spec() + 1,
            r is Ok ==> final(self).count_spec() == old(self).count_spec() + entries@.len(),
            r is Ok ==> final(vault).entries()["indexed_progress"@] == progress_text(
                final(self).done_spec(),
                final(self).total_spec(),
            ),
            r is Ok ==> final(store).pending() == Seq::<(bool, Seq<Seq<char>>, Seq<char>)>::empty(),
    {
        let ghost w0 = vault.writes();
        let ghost c0 = self.count as nat;
        let mut count = self.count;
        let res = index_files(store, vault, entries, excludes, &mut count);
        let ghost w1 = vault.writes();
        proof {
            let a = w0.subrange(self.start@, w0.len() as int);
            let b = w1.subrange(w0.len() as int, w1.len() as int);
            lemma_counts_concat(a, b, 0, c0, count as nat);
            assert(w1.subrange(self.start@, w1.len() as int) =~= a + b);
        }
        self.count = count;
        let refused = match res {
            Ok(n) => n,
            Err(e) => return Err(e),
        };
        let step = record_progress(vault, self.done + 1, self.total);
        proof {
            let x = w1.subrange(self.start@, w1.len() as int);
            let y = vault.writes().subrange(self.start@, vault.writes().len() as int);
            if step is Ok {
                reveal_strlit("indexed_progress");
                reveal_strlit("indexed_files");
                assert("indexed_progress"@.len() != "indexed_files"@.len());
                assert(y.drop_last() =~= x);
                assert(y.last().0 != "indexed_files"@);
            } else {
                assert(y =~= x);
            }
        }
        match step {
            Ok(()) => {},
            Err(e) => return Err(BuildError::Store(e)),
        }
        self.done = self.done + 1;
        Ok(refused)
    }
}

/// Records a completed build that started at `now`: `indexed` becomes
/// `"true"` and `last_indexed` the decimal text of `now`, in one write.
pub fn finish_build(vault: &mut Vaultify, now: u64) -> (r: Result<(), StoreError>)
    ensures
        r is Ok ==> final(vault).entries() == old(vault).entries().insert("indexed"@, "true"@).insert(
            "last_indexed"@,
            decimal(now as nat),
        ),
{
    let mut batch: Vec<(String, String)> = Vec::new();
    batch.push(text_pair("indexed", "true"));
    let stamp = decimal_text(now);
    batch.push(text_pair("last_indexed", stamp.as_str()));
    let ghost m = vault.entries();
    proof {
        let b = pair_texts(batch@);
        assert(b.drop_last().drop_last() =~= Seq::<(Seq<char>, Seq<char>)>::empty());
        assert(put_all(m, b) == put_all(m, b.drop_last()).insert("last_indexed"@, decimal(now as nat)));
        assert(put_all(m, b.drop_last()) == put_all(m, b.drop_last().drop_last()).insert(
            "indexed"@,
            "true"@,
        ));
    }
    vault.batch_set(&batch)
}

/// Queues a document for `path`, named by its display name (see
/// `display_name`); a path without a non-empty segment is refused.
pub fn index_add(store: &mut TantivyIndex, path: &str) -> (r: Result<(), IndexError>)
    ensures
        final(store).docs() == old(store).docs(),
        display_name(path@).len() == 0 <==> r == Err::<(), IndexError>(IndexError::Unnamed),
        r is Ok ==> final(store).pending() == old(store).pending().push(
            (true, name_terms(display_name(path@)), path@),
        ),
        r is Err ==> final(store).pending() == old(store).pending(),
        r matches Err(e) ==> e == IndexError::Unnamed || e == IndexError::Busy,
{
    let name = display_name_of(path);
    if name.as_str().is_empty() {
        return Err(IndexError::Unnamed);
    }
    store.add(name.as_str(), path)
}

/// Queues the deletion of every document whose path is exactly `path`.
pub fn index_delete(store: &mut TantivyIndex, path: &str) -> (r: Result<(), IndexError>)
    ensures
        r is Ok,
        final(store).docs() == old(store).docs(),
        final(store).pending() == old(store).pending().push((false, Seq::empty(), path@)),
{
    store.delete(path);
    Ok(())
}

/// Publishes every queued operation.
pub fn index_commit(store: &mut TantivyIndex) -> (r: Result<(), IndexError>)
    ensures
        r is Ok ==> final(store).docs() == apply_ops(old(store).docs(), old(store).pending()),
        r is Ok ==> final(store).pending() == Seq::<(bool, Seq<Seq<char>>, Seq<char>)>::empty(),
        r matches Err(e) ==> e == IndexError::Corrupt,
{
    store.commit()
}

/// The number of live documents.
pub fn get_num_docs(store: &TantivyIndex) -> (r: Result<u64, IndexError>)
    ensures
        r matches Ok(n) ==> n == store.docs().len(),
        r matches Err(e) ==> e == IndexError::Corrupt,
{
    store.get_num_docs()
}

/// The path of every live document.
pub fn index_list(store: &TantivyIndex) -> (r: Result<Vec<String>, IndexError>)
    ensures
        r matches Ok(v) ==> v@.len() == store.docs().len() && forall|i: int|
            0 <= i < v@.len() ==> has_path(store.docs(), #[trigger] v@[i]@),
        r matches Err(e) ==> e == IndexError::Corrupt,
{
    store.list_all()
}

/// Commits a batch of incremental changes and publishes the live document
/// count as `indexed_files`.
pub fn commit_batch(store: &mut TantivyIndex, vault: &mut Vaultify) -> (r: Result<(), BuildError>)
    ensures
        r is Ok ==> final(store).docs() == apply_ops(old(store).docs(), old(store).pending()),
        r is Ok ==> final(store).pending() == Seq::<(bool, Seq<Seq<char>>, Seq<char>)>::empty(),
        r is Ok ==> final(vault).entries() == old(vault).entries().insert(
            "indexed_files"@,
            decimal(final(store).docs().len()),
        ),
        r matches Err(BuildError::Index(_)) ==> final(vault).entries() == old(vault).entries()
            && final(vault).writes() == old(vault).writes(),
{
    match store.commit() {
        Ok(()) => {},
        Err(e) => return Err(BuildError::Index(e)),
    }
    let n = match store.get_num_docs() {
        Ok(n) => n,
        Err(e) => return Err(BuildError::Index(e)),
    };
    match vault.set("indexed_files", decimal_text(n)) {
        Ok(()) => Ok(()),
        Err(e) => Err(BuildError::Store(e)),
    }
}

/// The paths of at most `SEARCH_LIMIT` best-scored live documents whose
/// name shares a term with the query, once the whitespace around it is taken
/// off; every such document where there are no more than `SEARCH_LIMIT` of
/// them. A query of whitespace alone has no hits.
pub fn index_search(store: &TantivyIndex, query: &str) -> (r: Result<Vec<String>, IndexError>)
    ensures
        trimmed(query@).len() == 0 ==> (r matches Ok(v) && v@.len() == 0),
        r matches Ok(v) ==> v@.len() == hit_count(
            store.docs(),
            name_terms(trimmed(query@)),
            SEARCH_LIMIT as nat,
        ),
        r matches Ok(v) ==> forall|i: int|
            0 <= i < v@.len() ==> is_hit(store.docs(), #[trigger] v@[i]@, name_terms(trimmed(query@))),
        r matches Ok(v) ==> matching(store.docs(), name_terms(trimmed(query@))).len()
            <= SEARCH_LIMIT ==> forall|d: (Seq<Seq<char>>, Seq<char>)|
            #[trigger] matching(store.docs(), name_terms(trimmed(query@))).count(d) > 0
                ==> texts(v@).contains(d.1),
        r matches Err(e) ==> e == IndexError::Corrupt,
{
    store.search(trim_text(query), SEARCH_LIMIT)
}

} // verus!
