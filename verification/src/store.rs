use vstd::prelude::*;
use crate::item::{item_views, FetchedDocument, WorkItem, WorkItemView};

verus! {

/// Whether some row of `docs` is keyed by `id`.
pub open spec fn docs_have(docs: Seq<FetchedDocument>, id: int) -> bool {
    exists|i: int| 0 <= i < docs.len() && docs[i].version_id == id
}

/// Whether some row of `docs` is keyed by `id` and holds `content`.
pub open spec fn docs_have_with(docs: Seq<FetchedDocument>, id: int, content: Seq<u8>) -> bool {
    exists|i: int|
        0 <= i < docs.len() && docs[i].version_id == id && docs[i].content@ == content
}

/// The versions of `vs` that have no document in `docs`, in catalog order.
pub open spec fn pending_of(vs: Seq<WorkItem>, docs: Seq<FetchedDocument>) -> Seq<WorkItemView>
    decreases vs.len(),
{
    if vs.len() == 0 {
        Seq::empty()
    } else {
        let prefix = pending_of(vs.drop_last(), docs);
        if !docs_have(docs, vs.last().version_id as int) {
            prefix.push(vs.last()@)
        } else {
            prefix
        }
    }
}

/// The documents after inserting each row of `docs` in turn, one statement
/// per row, where a row is rejected exactly when its key is already present.
pub open spec fn fallback_docs(
    base: Seq<FetchedDocument>,
    docs: Seq<FetchedDocument>,
) -> Seq<FetchedDocument>
    decreases docs.len(),
{
    if docs.len() == 0 {
        base
    } else {
        let prev = fallback_docs(base, docs.drop_last());
        if docs_have(prev, docs.last().version_id as int) {
            prev
        } else {
            prev.push(docs.last())
        }
    }
}

/// Whether row `i` of a row-by-row fallback over `docs` is accepted.
pub open spec fn fallback_row_ok(
    base: Seq<FetchedDocument>,
    docs: Seq<FetchedDocument>,
    i: int,
) -> bool {
    !docs_have(fallback_docs(base, docs.take(i)), docs[i].version_id as int)
}

/// What a batch flush did: whether a bulk write was attempted and accepted,
/// and, when it fell back, one result per single-row insert.
pub struct FlushReport {
    pub bulk_attempted: bool,
    pub bulk_ok: bool,
    pub row_attempts: usize,
    pub row_results: Vec<bool>,
}

/// An in-memory relational store: the version catalog, and the persisted
/// descriptor documents keyed by version.
pub struct ArtifactStore {
    pub versions: Vec<WorkItem>,
    pub documents: Vec<FetchedDocument>,
}

impl ArtifactStore {
    /// Whether a document for this version key is persisted.
    pub open spec fn has_doc(&self, id: int) -> bool {
        docs_have(self.documents@, id)
    }

    /// Version keys are unique, and at most one document is persisted per
    /// version key.
    pub open spec fn wf(&self) -> bool {
        &&& (forall|i: int, j: int|
            0 <= i < j < self.versions@.len() ==> self.versions@[i].version_id
                != self.versions@[j].version_id)
        &&& (forall|i: int, j: int|
            0 <= i < j < self.documents@.len() ==> self.documents@[i].version_id
                != self.documents@[j].version_id)
    }

    /// The set of work still to do: versions without a persisted document.
    pub open spec fn pending_spec(&self) -> Seq<WorkItemView> {
        pending_of(self.versions@, self.documents@)
    }

    pub fn new() -> (r: ArtifactStore)
        ensures
            r.versions@.len() == 0,
            r.documents@.len() == 0,
            r.wf(),
    {
        ArtifactStore { versions: Vec::new(), documents: Vec::new() }
    }

    /// Whether a document for this version key is already persisted.
    pub fn has_document(&self, id: i32) -> (b: bool)
        ensures
            b == self.has_doc(id as int),
    {
        let n = self.documents.len();
        let mut i: usize = 0;
        while i < n
            invariant
                n == self.documents@.len(),
                i <= n,
                forall|j: int| 0 <= j < i ==> self.documents@[j].version_id != id,
            decreases n - i,
        {
            if self.documents[i].version_id == id {
                proof {
                    assert(self.documents@[i as int].version_id == id);
                }
                return true;
            }
            i = i + 1;
        }
        false
    }

    /// The producer's read: every version lacking a persisted document,
    /// in catalog order, each exactly once, and none with a document.
    #[verifier::loop_isolation(false)]
    pub fn pending_items(&self) -> (r: Vec<WorkItem>)
        requires
            self.wf(),
        ensures
            item_views(r@) == self.pending_spec(),
            forall|m: int| 0 <= m < r@.len() ==> !self.has_doc(r@[m].version_id as int),
            forall|m: int, m2: int|
                0 <= m < m2 < r@.len() ==> r@[m].version_id != r@[m2].version_id,
    {
        let n = self.versions.len();
        let mut r: Vec<WorkItem> = Vec::new();
        let ghost mut srcs: Seq<int> = Seq::empty();
        let mut i: usize = 0;
        while i < n
            invariant
                i <= n,
                item_views(r@) == pending_of(self.versions@.take(i as int), self.documents@),
                forall|m: int| 0 <= m < r@.len() ==> !self.has_doc(r@[m].version_id as int),
                srcs.len() == r@.len(),
                forall|m: int| 0 <= m < r@.len() ==> 0 <= #[trigger] srcs[m] < i,
                forall|m: int, m2: int| 0 <= m < m2 < r@.len() ==> srcs[m] < srcs[m2],
                forall|m: int|
                    0 <= m < r@.len() ==> r@[m].version_id == self.versions@[srcs[m]].version_id,
            decreases n - i,
        {
            proof {
                assert(self.versions@.take(i + 1).drop_last() =~= self.versions@.take(i as int));
                assert(self.versions@.take(i + 1).last() == self.versions@[i as int]);
            }
            if !self.has_document(self.versions[i].version_id) {
                let w = self.versions[i].duplicate();
                r.push(w);
                proof {
                    srcs = srcs.push(i as int);
                    assert(item_views(r@) =~= item_views(r@.drop_last()).push(r@.last()@));
                }
            }
            i = i + 1;
        }
        proof {
            assert(self.versions@.take(n as int) =~= self.versions@);
        }
        r
    }

    /// The producer's count of pending work, for progress reporting.
    pub fn pending_count(&self) -> (n: usize)
        requires
            self.wf(),
        ensures
            n == self.pending_spec().len(),
    {
        let items = self.pending_items();
        items.len()
    }

    /// A single-row insert: rejected exactly when a document for the row's
    /// key is already persisted; on success, the row is appended.
    pub fn insert_one(&mut self, doc: FetchedDocument) -> (r: Result<(), FetchedDocument>)
        ensures
            final(self).versions@ == old(self).versions@,
            match r {
                Ok(_) => !old(self).has_doc(doc.version_id as int) && final(self).documents@
                    == old(self).documents@.push(doc),
                Err(d) => old(self).has_doc(doc.version_id as int) && d == doc && *final(self)
                    == *old(self),
            },
            old(self).wf() ==> final(self).wf(),
    {
        if self.has_document(doc.version_id) {
            Err(doc)
        } else {
            self.documents.push(doc);
            Ok(())
        }
    }

    /// An all-or-nothing bulk insert: accepted exactly when every row's key
    /// is fresh and the rows' keys are mutually distinct; when rejected, the
    /// store is unchanged and the batch is handed back for the fallback.
    #[verifier::loop_isolation(false)]
    pub fn try_bulk_insert(&mut self, docs: Vec<FetchedDocument>) -> (r: Result<
        (),
        Vec<FetchedDocument>,
    >)
        ensures
            final(self).versions@ == old(self).versions@,
            match r {
                Ok(_) => bulk_accepted(*old(self), docs@) && final(self).documents@ == old(
                    self,
                ).documents@ + docs@,
                Err(d) => !bulk_accepted(*old(self), docs@) && d == docs && *final(self) == *old(
                    self,
                ),
            },
            old(self).wf() ==> final(self).wf(),
    {
        let n = docs.len();
        let mut i: usize = 0;
        while i < n
            invariant
                n == docs@.len(),
                i <= n,
                forall|m: int| 0 <= m < i ==> !self.has_doc(docs@[m].version_id as int),
                forall|m: int, m2: int|
                    0 <= m < m2 < i ==> docs@[m].version_id != docs@[m2].version_id,
            decreases n - i,
        {
            if self.has_document(docs[i].version_id) {
                return Err(docs);
            }
            let mut j: usize = 0;
            while j < i
                invariant
                    j <= i < n,
                    n == docs@.len(),
                    forall|m: int| 0 <= m < j ==> docs@[m].version_id != docs@[i as int].version_id,
                decreases i - j,
            {
                if docs[j].version_id == docs[i].version_id {
                    return Err(docs);
                }
                j = j + 1;
            }
            i = i + 1;
        }
        let ghost orig = docs@;
        let ghost olddocs = self.documents@;
        let mut docs = docs;
        let mut k: usize = 0;
        while k < n
            invariant
                k <= n,
                docs@ == orig.skip(k as int),
                self.documents@ == olddocs + orig.take(k as int),
                self.versions@ == old(self).versions@,
            decreases n - k,
        {
            proof {
                assert(orig.skip(k as int)[0] == orig[k as int]);
                assert(orig.take(k + 1) =~= orig.take(k as int).push(orig[k as int]));
            }
            let d = docs.remove(0);
            self.documents.push(d);
            proof {
                assert(docs@ =~= orig.skip(k + 1));
                assert(self.documents@ =~= olddocs + orig.take(k + 1));
            }
            k = k + 1;
        }
        proof {
            assert(orig.take(n as int) =~= orig);
            if old(self).wf() {
                assert forall|a: int, b: int|
                    0 <= a < b < self.documents@.len() implies self.documents@[a].version_id
                    != self.documents@[b].version_id by {
                    if a < olddocs.len() && b >= olddocs.len() {
                        assert(self.documents@[b] == orig[b - olddocs.len()]);
                        assert(!docs_have(olddocs, orig[b - olddocs.len()].version_id as int));
                        assert(self.documents@[a] == olddocs[a]);
                    }
                    if a >= olddocs.len() {
                        assert(self.documents@[a] == orig[a - olddocs.len()]);
                        assert(self.documents@[b] == orig[b - olddocs.len()]);
                        assert(orig[a - olddocs.len()].version_id != orig[b
                            - olddocs.len()].version_id);
                    }
                }
            }
        }
        Ok(())
    }

    /// Flush a batch of fetched documents: attempt one bulk insert; when it
    /// is rejected, fall back to one single-row insert per document, so that
    /// one bad row cannot block the rest. An empty batch is a no-op.
    #[verifier::loop_isolation(false)]
    pub fn flush_batch(&mut self, docs: Vec<FetchedDocument>) -> (r: FlushReport)
        ensures
            final(self).versions@ == old(self).versions@,
            old(self).wf() ==> final(self).wf(),
            r.bulk_attempted == (docs@.len() > 0),
            r.bulk_ok == (docs@.len() > 0 && bulk_accepted(*old(self), docs@)),
            docs@.len() == 0 ==> *final(self) == *old(self) && r.row_attempts == 0,
            r.bulk_ok ==> final(self).documents@ == old(self).documents@ + docs@
                && r.row_attempts == 0,
            docs@.len() > 0 && !r.bulk_ok ==> {
                &&& r.row_attempts == docs@.len()
                &&& r.row_results@.len() == docs@.len()
                &&& final(self).documents@ == fallback_docs(old(self).documents@, docs@)
                &&& (forall|i: int|
                    0 <= i < docs@.len() ==> r.row_results@[i] == fallback_row_ok(
                        old(self).documents@,
                        docs@,
                        i,
                    ))
            },
    {
        if docs.len() == 0 {
            return FlushReport {
                bulk_attempted: false,
                bulk_ok: false,
                row_attempts: 0,
                row_results: Vec::new(),
            };
        }
        let n = docs.len();
        let docs = match self.try_bulk_insert(docs) {
            Ok(_) => {
                return FlushReport {
                    bulk_attempted: true,
                    bulk_ok: true,
                    row_attempts: 0,
                    row_results: Vec::new(),
                };
            },
            Err(d) => d,
        };
        let ghost orig = docs@;
        let ghost olddocs = self.documents@;
        let mut docs = docs;
        let mut row_results: Vec<bool> = Vec::new();
        let mut k: usize = 0;
        while k < n
            invariant
                k <= n,
                docs@ == orig.skip(k as int),
                self.documents@ == fallback_docs(olddocs, orig.take(k as int)),
                self.versions@ == old(self).versions@,
                old(self).wf() ==> self.wf(),
                row_results@.len() == k,
                forall|i: int| 0 <= i < k ==> row_results@[i] == fallback_row_ok(olddocs, orig, i),
            decreases n - k,
        {
            proof {
                assert(orig.skip(k as int)[0] == orig[k as int]);
                assert(orig.take(k + 1).drop_last() =~= orig.take(k as int));
                assert(orig.take(k + 1).last() == orig[k as int]);
                assert(orig.take(k + 1).take(k as int) =~= orig.take(k as int));
            }
            let d = docs.remove(0);
            let accepted = match self.insert_one(d) {
                Ok(_) => true,
                Err(_) => false,
            };
            row_results.push(accepted);
            proof {
                assert(docs@ =~= orig.skip(k + 1));
            }
            k = k + 1;
        }
        proof {
            assert(orig.take(n as int) =~= orig);
        }
        FlushReport { bulk_attempted: true, bulk_ok: false, row_attempts: n, row_results }
    }
}

/// The condition under which a bulk insert is accepted: every row fresh,
/// and no two rows sharing a key.
pub open spec fn bulk_accepted(s: ArtifactStore, docs: Seq<FetchedDocument>) -> bool {
    &&& (forall|i: int| 0 <= i < docs.len() ==> !s.has_doc(docs[i].version_id as int))
    &&& (forall|i: int, j: int|
        0 <= i < j < docs.len() ==> docs[i].version_id != docs[j].version_id)
}

} // verus!
