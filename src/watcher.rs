//! The watcher's decisions: which index changes a file-system event makes,
//! and when a batch of them is committed.
use vstd::prelude::*;
use crate::index_store::{apply_ops, name_terms, TantivyIndex};
use crate::indexer::{
    commit_batch, holds, index_add, index_delete, is_indexed, planned_adds, BuildError, WalkEntry,
};
use crate::paths::{display_name, excluded_by, is_excluded, texts};
use crate::state::{StoreError, Vaultify};
use crate::text::decimal;

verus! {

/// The watcher commits once this many changes have been queued.
pub const COMMIT_EVERY: u64 = 1000;

/// The kinds of file-system event the watcher tells apart.
#[derive(Clone, Copy, Debug, PartialEq, Eq, Structural)]
pub enum FsEventKind {
    Create,
    /// A change of name; each path of the event is looked at on its own.
    Rename,
    Remove,
    /// Any other event: ignored.
    Other,
}

/// The index changes for an event on `paths`, in order; `exists[i]` says
/// whether `paths[i]` was on disk when the event was handled. Paths that an
/// excluded prefix starts make none.
pub open spec fn event_ops(
    kind: FsEventKind,
    paths: Seq<Seq<char>>,
    exists: Seq<bool>,
    excludes: Seq<Seq<char>>,
) -> Seq<(bool, Seq<Seq<char>>, Seq<char>)>
    decreases paths.len(),
{
    if paths.len() == 0 {
        Seq::empty()
    } else {
        let prev = event_ops(kind, paths.drop_last(), exists.drop_last(), excludes);
        let p = paths.last();
        if excluded_by(p, excludes) {
            prev
        } else {
            match kind {
                FsEventKind::Create => prev.push((true, name_terms(display_name(p)), p)),
                FsEventKind::Rename => if exists.last() {
                    prev.push((true, name_terms(display_name(p)), p))
                } else {
                    prev.push((false, Seq::empty(), p))
                },
                FsEventKind::Remove => prev.push((false, Seq::empty(), p)),
                FsEventKind::Other => prev,
            }
        }
    }
}

proof fn lemma_plan_skips_excluded(entries: Seq<Option<WalkEntry>>, excludes: Seq<Seq<char>>)
    ensures
        forall|i: int|
            0 <= i < planned_adds(entries, excludes).len() ==> !excluded_by(
                (#[trigger] planned_adds(entries, excludes)[i]).2,
                excludes,
            ),
    decreases entries.len(),
{
    if entries.len() > 0 {
        lemma_plan_skips_excluded(entries.drop_last(), excludes);
        let prev = planned_adds(entries.drop_last(), excludes);
        assert forall|i: int| 0 <= i < planned_adds(entries, excludes).len() implies !excluded_by(
            (#[trigger] planned_adds(entries, excludes)[i]).2,
            excludes,
        ) by {
            if i < prev.len() {
                assert(planned_adds(entries, excludes)[i] == prev[i]);
            }
        }
    }
}

proof fn lemma_event_skips_excluded(
    kind: FsEventKind,
    paths: Seq<Seq<char>>,
    exists: Seq<bool>,
    excludes: Seq<Seq<char>>,
)
    ensures
        forall|i: int|
            0 <= i < event_ops(kind, paths, exists, excludes).len() ==> !excluded_by(
                (#[trigger] event_ops(kind, paths, exists, excludes)[i]).2,
                excludes,
            ),
    decreases paths.len(),
{
    if paths.len() > 0 {
        lemma_event_skips_excluded(kind, paths.drop_last(), exists.drop_last(), excludes);
        let prev = event_ops(kind, paths.drop_last(), exists.drop_last(), excludes);
        assert forall|i: int|
            0 <= i < event_ops(kind, paths, exists, excludes).len() implies !excluded_by(
            (#[trigger] event_ops(kind, paths, exists, excludes)[i]).2,
            excludes,
        ) by {
            if i < prev.len() {
                assert(event_ops(kind, paths, exists, excludes)[i] == prev[i]);
            }
        }
    }
}

proof fn lemma_event_ops_prefix(
    kind: FsEventKind,
    paths: Seq<Seq<char>>,
    exists: Seq<bool>,
    excludes: Seq<Seq<char>>,
    j: int,
)
    requires
        0 <= j <= paths.len(),
        exists.len() == paths.len(),
    ensures
        event_ops(kind, paths.subrange(0, j), exists.subrange(0, j), excludes).is_prefix_of(
            event_ops(kind, paths, exists, excludes),
        ),
    decreases paths.len() - j,
{
    if j < paths.len() {
        lemma_event_ops_prefix(kind, paths, exists, excludes, j + 1);
        assert(paths.subrange(0, j + 1).drop_last() =~= paths.subrange(0, j));
        assert(exists.subrange(0, j + 1).drop_last() =~= exists.subrange(0, j));
        let a = event_ops(kind, paths.subrange(0, j), exists.subrange(0, j), excludes);
        let b = event_ops(kind, paths.subrange(0, j + 1), exists.subrange(0, j + 1), excludes);
        let c = event_ops(kind, paths, exists, excludes);
        assert(a.is_prefix_of(b));
        assert forall|k: int| 0 <= k < a.len() implies a[k] == c[k] by {
            assert(a[k] == b[k]);
            assert(b[k] == c[k]);
        }
    } else {
        assert(paths.subrange(0, j) =~= paths);
        assert(exists.subrange(0, j) =~= exists);
        let c = event_ops(kind, paths, exists, excludes);
        assert(c.subrange(0, c.len() as int) =~= c);
    }
}

/// Neither the bulk build nor the watcher queues a change, addition or
/// deletion, for a path that an excluded prefix starts.
pub proof fn lemma_excluded_paths_untouched(
    entries: Seq<Option<WalkEntry>>,
    kind: FsEventKind,
    paths: Seq<Seq<char>>,
    exists: Seq<bool>,
    excludes: Seq<Seq<char>>,
)
    ensures
        forall|i: int|
            0 <= i < planned_adds(entries, excludes).len() ==> !excluded_by(
                (#[trigger] planned_adds(entries, excludes)[i]).2,
                excludes,
            ),
        forall|i: int|
            0 <= i < event_ops(kind, paths, exists, excludes).len() ==> !excluded_by(
                (#[trigger] event_ops(kind, paths, exists, excludes)[i]).2,
                excludes,
            ),
{
    lemma_plan_skips_excluded(entries, excludes);
    lemma_event_skips_excluded(kind, paths, exists, excludes);
}

/// The watcher's state: whether the initial build was seen complete, and
/// how many changes were queued since its last commit.
pub struct Sentry {
    armed: bool,
    count: u64,
}

impl Sentry {
    /// The changes counted toward the next commit.
    pub closed spec fn queued(&self) -> nat {
        self.count as nat
    }

    /// Whether the watcher has seen `indexed` set to `"true"`; until then it
    /// changes nothing.
    pub closed spec fn armed_spec(&self) -> bool {
        self.armed
    }

    /// Whether the count is below the commit threshold.
    pub open spec fn wf(&self) -> bool {
        self.queued() < COMMIT_EVERY
    }

    /// A watcher with nothing queued.
    pub fn new() -> (r: Sentry)
        ensures
            r.queued() == 0,
            r.wf(),
            !r.armed_spec(),
    {
        Sentry { armed: false, count: 0 }
    }

    /// Reads `indexed` and arms the watcher once it is `"true"`.
    pub fn arm(&mut self, vault: &Vaultify) -> (r: Result<bool, StoreError>)
        ensures
            r matches Ok(b) ==> b == holds(vault.entries(), "indexed"@, "true"@),
            r matches Ok(b) ==> final(self).armed_spec() == (old(self).armed_spec() || b),
            r is Err ==> final(self).armed_spec() == old(self).armed_spec(),
            final(self).queued() == old(self).queued(),
    {
        let ready = is_indexed(vault)?;
        if ready {
            self.armed = true;
        }
        Ok(ready)
    }

    /// Whether the watcher is armed.
    pub fn armed(&self) -> (r: bool)
        ensures
            r == self.armed_spec(),
    {
        self.armed
    }

    /// The changes counted toward the next commit.
    pub fn count(&self) -> (r: u64)
        ensures
            r == self.queued(),
    {
        self.count
    }

    /// Queues the index changes of one event (see `event_ops`). Once
    /// `COMMIT_EVERY` changes or more wait, they are committed, the live count
    /// is published and the count starts again from 0. Where that commit
    /// fails, the changes stay queued and the count stays one below the
    /// threshold, so that the next change tries the commit again.
    pub fn handle_event(
        &mut self,
        store: &mut TantivyIndex,
        vault: &mut Vaultify,
        kind: FsEventKind,
        paths: &Vec<String>,
        exists: &Vec<bool>,
        excludes: &Vec<String>,
    ) -> (r: Result<(), BuildError>)
        requires
            old(self).wf(),
            old(self).armed_spec(),
            paths@.len() == exists@.len(),
            paths@.len() <= u64::MAX - COMMIT_EVERY,
        ensures
            final(self).wf(),
            final(self).armed_spec(),
            ({
                let ops = event_ops(kind, texts(paths@), exists@, texts(excludes@));
                (forall|i: int| 0 <= i < ops.len() ==> !(#[trigger] ops[i]).0) && old(
                    self,
                ).queued() + ops.len() < COMMIT_EVERY ==> r is Ok
            }),
            r is Ok ==> ({
                let ops = event_ops(kind, texts(paths@), exists@, texts(excludes@));
                if old(self).queued() + ops.len() >= COMMIT_EVERY {
                    &&& final(store).docs() == apply_ops(
                        old(store).docs(),
                        old(store).pending() + ops,
                    )
                    &&& final(store).pending() == Seq::<(bool, Seq<Seq<char>>, Seq<char>)>::empty()
                    &&& final(self).queued() == 0
                    &&& final(vault).entries() == old(vault).entries().insert(
                        "indexed_files"@,
                        decimal(final(store).docs().len()),
                    )
                } else {
                    &&& final(store).docs() == old(store).docs()
                    &&& final(store).pending() == old(store).pending() + ops
                    &&& final(self).queued() == old(self).queued() + ops.len()
                    &&& final(vault).entries() == old(vault).entries()
                }
            }),
    {
        let ghost ps = texts(paths@);
        let ghost ex = texts(excludes@);
        let mut n: u64 = self.count;
        let mut i: usize = 0;
        while i < paths.len()
            invariant
                i <= paths@.len() == exists@.len(),
                paths@.len() <= u64::MAX - COMMIT_EVERY,
                ps == texts(paths@),
                ex == texts(excludes@),
                n == old(self).count + event_ops(
                    kind,
                    ps.subrange(0, i as int),
                    exists@.subrange(0, i as int),
                    ex,
                ).len(),
                n <= old(self).count + i,
                old(self).count < COMMIT_EVERY,
                store.docs() == old(store).docs(),
                store.pending() == old(store).pending() + event_ops(
                    kind,
                    ps.subrange(0, i as int),
                    exists@.subrange(0, i as int),
                    ex,
                ),
                vault.entries() == old(vault).entries(),
                self.count == old(self).count,
                self.armed == old(self).armed,
                self.armed,
            decreases paths@.len() - i,
        {
            let ghost prev = event_ops(
                kind,
                ps.subrange(0, i as int),
                exists@.subrange(0, i as int),
                ex,
            );
            proof {
                assert(ps.subrange(0, i + 1).drop_last() =~= ps.subrange(0, i as int));
                assert(exists@.subrange(0, i + 1).drop_last() =~= exists@.subrange(0, i as int));
            }
            let path = paths[i].as_str();
            if !is_excluded(path, excludes) {
                let add = match kind {
                    FsEventKind::Create => Some(true),
                    FsEventKind::Rename => Some(exists[i]),
                    FsEventKind::Remove => Some(false),
                    FsEventKind::Other => None,
                };
                match add {
                    Some(true) => {
                        match index_add(store, path) {
                            Ok(()) => {},
                            Err(e) => {
                                proof {
                                    let op = (true, name_terms(display_name(ps[i as int])), ps[i as int]);
                                    lemma_event_ops_prefix(kind, ps, exists@, ex, i + 1);
                                    let full = event_ops(kind, ps, exists@, ex);
                                    assert(event_ops(
                                        kind,
                                        ps.subrange(0, i + 1),
                                        exists@.subrange(0, i + 1),
                                        ex,
                                    ) == prev.push(op));
                                    let pre = prev.push(op);
                                    assert(pre[prev.len() as int] == op);
                                    assert(pre.is_prefix_of(full));
                                    assert(full.subrange(0, pre.len() as int)[prev.len() as int]
                                        == full[prev.len() as int]);
                                    assert(full[prev.len() as int] == op);
                                }
                                return Err(BuildError::Index(e));
                            },
                        }
                        n = n + 1;
                        let ghost op = (true, name_terms(display_name(ps[i as int])), ps[i as int]);
                        assert(old(store).pending() + prev.push(op) =~= (old(store).pending()
                            + prev).push(op));
                    },
                    Some(false) => {
                        let _ = index_delete(store, path);
                        n = n + 1;
                        let ghost op = (false, Seq::<Seq<char>>::empty(), ps[i as int]);
                        assert(old(store).pending() + prev.push(op) =~= (old(store).pending()
                            + prev).push(op));
                    },
                    None => {},
                }
            }
            i = i + 1;
        }
        proof {
            assert(ps.subrange(0, paths@.len() as int) =~= ps);
            assert(exists@.subrange(0, paths@.len() as int) =~= exists@);
        }
        if n >= COMMIT_EVERY {
            match commit_batch(store, vault) {
                Ok(()) => {
                    self.count = 0;
                },
                Err(e) => {
                    self.count = COMMIT_EVERY - 1;
                    return Err(e);
                },
            }
        } else {
            self.count = n;
        }
        Ok(())
    }
}

} // verus!
