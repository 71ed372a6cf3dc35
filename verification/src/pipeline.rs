use vstd::prelude::*;
use crate::fetch::{
    resolve_item, spec_item_content, spec_item_fatal, spec_item_fatal_status, spec_item_persisted,
    spec_final_attempt, Attempt, FetchOutcome, SkipReason,
};
use crate::item::FetchedDocument;
use crate::store::{docs_have_with, ArtifactStore};

verus! {

/// How one work item ended: persisted or skipped, each exactly once. A fatal
/// status produces no outcome; it aborts the run instead.
#[derive(PartialEq, Eq, Structural, Clone, Copy, Debug)]
pub enum ItemOutcome {
    /// The document was fetched and persisted.
    Persisted,
    /// The item was skipped and stays absent from storage.
    Skipped(SkipReason),
}

/// An error that aborts the whole run.
#[derive(PartialEq, Eq, Structural, Clone, Copy, Debug)]
pub enum PipelineError {
    /// The remote host answered with a status that is neither a success nor
    /// a not-found: taken as a systemic problem worth halting on.
    UnexpectedStatus(u16),
}

/// The outcome a non-fatal item contributes to the run's summary.
pub open spec fn spec_item_outcome(script: Seq<Attempt>, max: nat) -> ItemOutcome {
    if spec_item_persisted(script, max) {
        ItemOutcome::Persisted
    } else {
        match spec_final_attempt(script, max) {
            Attempt::Transport => ItemOutcome::Skipped(SkipReason::RetriesExhausted),
            Attempt::Response(..) => ItemOutcome::Skipped(SkipReason::NotFound),
        }
    }
}

/// The position of the first item whose fetch ends in a fatal status, if any.
pub open spec fn spec_first_fatal(scripts: Seq<Vec<Attempt>>, max: nat) -> Option<int>
    decreases scripts.len(),
{
    if scripts.len() == 0 {
        None
    } else if spec_item_fatal(scripts[0]@, max) {
        Some(0int)
    } else {
        match spec_first_fatal(scripts.skip(1), max) {
            None => None,
            Some(k) => Some(k + 1),
        }
    }
}

pub proof fn lemma_first_fatal_at(scripts: Seq<Vec<Attempt>>, max: nat, j: int)
    requires
        0 <= j < scripts.len(),
        forall|i: int| 0 <= i < j ==> !spec_item_fatal(#[trigger] scripts[i]@, max),
        spec_item_fatal(scripts[j]@, max),
    ensures
        spec_first_fatal(scripts, max) == Some(j),
    decreases j,
{
    if j > 0 {
        let tail = scripts.skip(1);
        assert forall|i: int| 0 <= i < j - 1 implies !spec_item_fatal(#[trigger] tail[i]@, max) by {
            assert(tail[i] == scripts[i + 1]);
        }
        assert(tail[j - 1] == scripts[j]);
        lemma_first_fatal_at(tail, max, j - 1);
    }
}

pub proof fn lemma_first_fatal_none(scripts: Seq<Vec<Attempt>>, max: nat)
    requires
        forall|i: int| 0 <= i < scripts.len() ==> !spec_item_fatal(#[trigger] scripts[i]@, max),
    ensures
        spec_first_fatal(scripts, max) is None,
    decreases scripts.len(),
{
    if scripts.len() > 0 {
        let tail = scripts.skip(1);
        assert forall|i: int| 0 <= i < tail.len() implies !spec_item_fatal(
            #[trigger] tail[i]@,
            max,
        ) by {
            assert(tail[i] == scripts[i + 1]);
        }
        lemma_first_fatal_none(tail, max);
    }
}

pub proof fn lemma_first_fatal_inv(scripts: Seq<Vec<Attempt>>, max: nat)
    ensures
        match spec_first_fatal(scripts, max) {
            Option::None => forall|i: int|
                0 <= i < scripts.len() ==> !spec_item_fatal(#[trigger] scripts[i]@, max),
            Option::Some(j) => 0 <= j < scripts.len() && spec_item_fatal(scripts[j]@, max)
                && forall|i: int| 0 <= i < j ==> !spec_item_fatal(#[trigger] scripts[i]@, max),
        },
    decreases scripts.len(),
{
    if scripts.len() > 0 && !spec_item_fatal(scripts[0]@, max) {
        let tail = scripts.skip(1);
        lemma_first_fatal_inv(tail, max);
        match spec_first_fatal(tail, max) {
            Option::None => {
                assert forall|i: int| 0 <= i < scripts.len() implies !spec_item_fatal(
                    #[trigger] scripts[i]@,
                    max,
                ) by {
                    if i > 0 {
                        assert(scripts[i] == tail[i - 1]);
                    }
                }
            },
            Option::Some(k) => {
                assert(scripts[k + 1] == tail[k]);
                assert forall|i: int| 0 <= i < k + 1 implies !spec_item_fatal(
                    #[trigger] scripts[i]@,
                    max,
                ) by {
                    if i > 0 {
                        assert(scripts[i] == tail[i - 1]);
                    }
                }
            },
        }
    }
}

/// Whether some element of `ids` is the key `id`.
pub open spec fn ids_have(ids: Seq<i32>, id: int) -> bool {
    exists|k: int| 0 <= k < ids.len() && ids[k] == id
}

/// Every script offers at least `max` attempt results, and the attempt
/// budget is at least one.
pub open spec fn scripts_cover(scripts: Seq<Vec<Attempt>>, max: nat) -> bool {
    forall|i: int| 0 <= i < scripts.len() ==> 1 <= max <= (#[trigger] scripts[i])@.len()
}

/// A worker's handling of one received batch: fetch every item with bounded
/// retry, stop the whole run at the first fatal status (nothing of the batch
/// is written then), and otherwise flush the fetched documents in one bulk
/// write. The batch's keys must be pending and mutually distinct, as the
/// producer's read guarantees.
#[verifier::loop_isolation(false)]
pub fn process_batch(
    store: &mut ArtifactStore,
    ids: &Vec<i32>,
    scripts: Vec<Vec<Attempt>>,
    max_attempts: usize,
) -> (r: Result<Vec<ItemOutcome>, PipelineError>)
    requires
        old(store).wf(),
        scripts@.len() == ids@.len(),
        scripts_cover(scripts@, max_attempts as nat),
        forall|i: int| 0 <= i < ids@.len() ==> !old(store).has_doc(#[trigger] ids@[i] as int),
        forall|i: int, j: int| 0 <= i < j < ids@.len() ==> ids@[i] != ids@[j],
    ensures
        final(store).wf(),
        final(store).versions@ == old(store).versions@,
        match r {
            Ok(outs) => {
                &&& spec_first_fatal(scripts@, max_attempts as nat) is None
                &&& old(store).documents@.is_prefix_of(final(store).documents@)
                &&& outs@.len() == ids@.len()
                &&& (forall|i: int|
                    0 <= i < outs@.len() ==> outs@[i] == spec_item_outcome(
                        scripts@[i]@,
                        max_attempts as nat,
                    ))
                &&& (forall|id: int| old(store).has_doc(id) ==> final(store).has_doc(id))
                &&& (forall|id: int|
                    !old(store).has_doc(id) && !ids_have(ids@, id) ==> !final(store).has_doc(id))
                &&& (forall|i: int|
                    0 <= i < ids@.len() ==> (final(store).has_doc(#[trigger] ids@[i] as int)
                        == spec_item_persisted(scripts@[i]@, max_attempts as nat)))
                &&& (forall|i: int|
                    0 <= i < ids@.len() && spec_item_persisted(scripts@[i]@, max_attempts as nat)
                        ==> docs_have_with(
                        final(store).documents@,
                        #[trigger] ids@[i] as int,
                        spec_item_content(scripts@[i]@, max_attempts as nat),
                    ))
            },
            Err(e) => {
                &&& (spec_first_fatal(scripts@, max_attempts as nat) matches Some(j) && e
                    == PipelineError::UnexpectedStatus(
                    spec_item_fatal_status(scripts@[j]@, max_attempts as nat),
                ))
                &&& *final(store) == *old(store)
            },
        },
{
    let n = ids.len();
    let ghost sorig = scripts@;
    proof {
        assert(scripts_cover(sorig, max_attempts as nat));
    }
    let mut scripts = scripts;
    let mut outs: Vec<ItemOutcome> = Vec::new();
    let mut fetched: Vec<FetchedDocument> = Vec::new();
    let ghost mut srcs: Seq<int> = Seq::empty();
    let mut j: usize = 0;
    while j < n
        invariant
            j <= n,
            scripts@ == sorig.skip(j as int),
            outs@.len() == j,
            forall|i: int| 0 <= i < j ==> !spec_item_fatal(#[trigger] sorig[i]@, max_attempts as nat),
            forall|i: int|
                0 <= i < j ==> outs@[i] == spec_item_outcome(
                    #[trigger] sorig[i]@,
                    max_attempts as nat,
                ),
            srcs.len() == fetched@.len(),
            forall|m: int| 0 <= m < fetched@.len() ==> 0 <= #[trigger] srcs[m] < j,
            forall|m: int, m2: int| 0 <= m < m2 < fetched@.len() ==> srcs[m] < srcs[m2],
            forall|m: int|
                0 <= m < fetched@.len() ==> #[trigger] fetched@[m].version_id == ids@[srcs[m]]
                    && spec_item_persisted(sorig[srcs[m]]@, max_attempts as nat)
                    && fetched@[m].content@ == spec_item_content(
                    sorig[srcs[m]]@,
                    max_attempts as nat,
                ),
            forall|i: int|
                0 <= i < j && spec_item_persisted(#[trigger] sorig[i]@, max_attempts as nat)
                    ==> exists|m: int| 0 <= m < fetched@.len() && srcs[m] == i,
        decreases n - j,
    {
        proof {
            assert(sorig.skip(j as int)[0] == sorig[j as int]);
            assert(sorig.skip(j as int).skip(1) =~= sorig.skip(j + 1));
            assert(1 <= max_attempts <= sorig[j as int]@.len());
        }
        let script = scripts.remove(0);
        let resolved = resolve_item(ids[j], script, max_attempts);
        match resolved.0 {
            FetchOutcome::Fatal(s) => {
                proof {
                    assert(spec_item_fatal(sorig[j as int]@, max_attempts as nat));
                    lemma_first_fatal_at(sorig, max_attempts as nat, j as int);
                }
                return Err(PipelineError::UnexpectedStatus(s));
            },
            FetchOutcome::Skipped(reason) => {
                outs.push(ItemOutcome::Skipped(reason));
                proof {
                    assert(!spec_item_persisted(sorig[j as int]@, max_attempts as nat));
                }
            },
            FetchOutcome::Fetched(doc) => {
                outs.push(ItemOutcome::Persisted);
                fetched.push(doc);
                proof {
                    let oldsrcs = srcs;
                    srcs = srcs.push(j as int);
                    assert(srcs[srcs.len() - 1] == j as int);
                    assert forall|i: int|
                        0 <= i < j + 1 && spec_item_persisted(
                            #[trigger] sorig[i]@,
                            max_attempts as nat,
                        ) implies exists|m: int| 0 <= m < fetched@.len() && srcs[m] == i by {
                        if i < j {
                            let m = choose|m: int|
                                0 <= m < fetched@.len() - 1 && oldsrcs[m] == i;
                            assert(srcs[m] == oldsrcs[m]);
                            assert(srcs[m] == i);
                        } else {
                            assert(srcs[srcs.len() - 1] == i);
                        }
                    }
                }
            },
        }
        j = j + 1;
    }
    proof {
        lemma_first_fatal_none(sorig, max_attempts as nat);
    }
    let ghost olddocs = store.documents@;
    let ghost fet = fetched@;
    proof {
        assert forall|a: int, b: int| 0 <= a < b < fet.len() implies fet[a].version_id
            != fet[b].version_id by {
            assert(ids@[srcs[a]] != ids@[srcs[b]]);
        }
    }
    let report = store.flush_batch(fetched);
    proof {
        assert(store.documents@ =~= olddocs + fet);
        // the batch's keys are persisted exactly when their fetch succeeded
        assert forall|id: int| old(store).has_doc(id) implies store.has_doc(id) by {
            let k = choose|k: int| 0 <= k < olddocs.len() && olddocs[k].version_id == id;
            assert(store.documents@[k].version_id == id);
        }
        assert forall|id: int|
            !old(store).has_doc(id) && !ids_have(ids@, id) implies !store.has_doc(id) by {
            if store.has_doc(id) {
                let k = choose|k: int|
                    0 <= k < store.documents@.len() && store.documents@[k].version_id == id;
                if k < olddocs.len() {
                    assert(old(store).has_doc(id));
                } else {
                    let m = k - olddocs.len();
                    assert(store.documents@[k] == fet[m]);
                    assert(ids@[srcs[m]] as int == id);
                    assert(ids_have(ids@, id));
                }
            }
        }
        assert forall|i: int| 0 <= i < ids@.len() implies (store.has_doc(#[trigger] ids@[i] as int)
            == spec_item_persisted(sorig[i]@, max_attempts as nat)) by {
            if spec_item_persisted(sorig[i]@, max_attempts as nat) {
                let m = choose|m: int| 0 <= m < fet.len() && srcs[m] == i;
                assert(store.documents@[olddocs.len() + m] == fet[m]);
                assert(store.documents@[olddocs.len() + m].version_id as int == ids@[i] as int);
                assert(store.has_doc(ids@[i] as int));
            } else {
                if store.has_doc(ids@[i] as int) {
                    let k = choose|k: int|
                        0 <= k < store.documents@.len() && store.documents@[k].version_id
                            == ids@[i] as int;
                    if k < olddocs.len() {
                        assert(old(store).has_doc(ids@[i] as int));
                    } else {
                        let m = k - olddocs.len();
                        assert(fet[m].version_id == ids@[srcs[m]]);
                        assert(ids@[srcs[m]] == ids@[i]);
                        assert(srcs[m] == i);
                        assert(false);
                    }
                }
            }
        }
        assert forall|i: int|
            0 <= i < ids@.len() && spec_item_persisted(sorig[i]@, max_attempts as nat)
                implies docs_have_with(
            store.documents@,
            #[trigger] ids@[i] as int,
            spec_item_content(sorig[i]@, max_attempts as nat),
        ) by {
            let m = choose|m: int| 0 <= m < fet.len() && srcs[m] == i;
            assert(store.documents@[olddocs.len() + m] == fet[m]);
        }
    }
    Ok(outs)
}

/// What a whole run did: one outcome per processed pending item (in the
/// producer's order), how many batches were flushed, and the fatal error
/// that aborted the run, if one did.
pub struct RunReport {
    pub outcomes: Vec<ItemOutcome>,
    pub batches_done: usize,
    pub fatal: Option<PipelineError>,
}

/// One whole harvesting run over a scripted remote host: read the pending
/// items, group them into batches, fetch every item of a batch with bounded
/// retry, flush each batch, and stop at the first fatal status. `scripts`
/// holds, per pending item in the producer's order, the results the host
/// would give to that item's successive attempts.
///
/// Every pending item before the run's end is persisted or skipped, exactly
/// once, by exactly one batch; items of batches after a fatal error are left
/// untouched.
#[verifier::loop_isolation(false)]
pub fn run_pipeline(
    store: &mut ArtifactStore,
    batch_size: usize,
    max_attempts: usize,
    scripts: Vec<Vec<Attempt>>,
) -> (r: RunReport)
    requires
        old(store).wf(),
        batch_size >= 1,
        scripts@.len() == old(store).pending_spec().len(),
        scripts_cover(scripts@, max_attempts as nat),
    ensures
        final(store).wf(),
        final(store).versions@ == old(store).versions@,
        r.outcomes@.len() <= old(store).pending_spec().len(),
        forall|i: int|
            0 <= i < r.outcomes@.len() ==> r.outcomes@[i] == spec_item_outcome(
                #[trigger] scripts@[i]@,
                max_attempts as nat,
            ),
        forall|i: int|
            0 <= i < r.outcomes@.len() ==> (r.outcomes@[i] == ItemOutcome::Persisted
                <==> final(store).has_doc(#[trigger] old(store).pending_spec()[i].version_id)),
        forall|i: int|
            0 <= i < r.outcomes@.len() && r.outcomes@[i] == ItemOutcome::Persisted
                ==> docs_have_with(
                final(store).documents@,
                #[trigger] old(store).pending_spec()[i].version_id,
                spec_item_content(scripts@[i]@, max_attempts as nat),
            ),
        forall|i: int|
            r.outcomes@.len() <= i < old(store).pending_spec().len() ==> !final(store).has_doc(
                #[trigger] old(store).pending_spec()[i].version_id,
            ),
        ({
            let ff = spec_first_fatal(scripts@, max_attempts as nat);
            match ff {
                Option::None => r.fatal is None
                    && r.outcomes@.len() == old(store).pending_spec().len(),
                Option::Some(j) => r.fatal == Some(
                    PipelineError::UnexpectedStatus(
                        spec_item_fatal_status(scripts@[j]@, max_attempts as nat),
                    ),
                ) && r.outcomes@.len() <= j < r.outcomes@.len() + batch_size,
            }
        }),
        r.outcomes@.len() <= r.batches_done * batch_size,
        r.outcomes@.len() == r.batches_done * batch_size || (r.fatal is None
            && r.batches_done * batch_size < r.outcomes@.len() + batch_size),
{
    let pending = store.pending_items();
    let n = pending.len();
    let ghost fullscripts = scripts@;
    proof {
        assert(scripts_cover(fullscripts, max_attempts as nat));
    }
    let ghost pviews = old(store).pending_spec();
    proof {
        assert(pviews.len() == n);
        assert forall|i: int| 0 <= i < n implies #[trigger] pviews[i].version_id == pending@[i].version_id as int by {
            assert(pviews[i] == pending@[i]@);
        }
    }
    let mut scripts = scripts;
    let mut outcomes: Vec<ItemOutcome> = Vec::new();
    let mut batches_done: usize = 0;
    let mut pos: usize = 0;
    while pos < n
        invariant
            pos <= n,
            scripts@ == fullscripts.skip(pos as int),
            outcomes@.len() == pos,
            pos < n ==> pos == batches_done * batch_size,
            pos == n ==> n <= batches_done * batch_size < n + batch_size,
            forall|i: int|
                0 <= i < pos ==> !spec_item_fatal(#[trigger] fullscripts[i]@, max_attempts as nat),
            forall|i: int|
                0 <= i < pos ==> outcomes@[i] == spec_item_outcome(
                    #[trigger] fullscripts[i]@,
                    max_attempts as nat,
                ),
            store.wf(),
            store.versions@ == old(store).versions@,
            forall|i: int|
                0 <= i < pos ==> (store.has_doc(#[trigger] pending@[i].version_id as int)
                    == spec_item_persisted(fullscripts[i]@, max_attempts as nat)),
            forall|i: int|
                0 <= i < pos && spec_item_persisted(#[trigger] fullscripts[i]@, max_attempts as nat)
                    ==> docs_have_with(
                    store.documents@,
                    pending@[i].version_id as int,
                    spec_item_content(fullscripts[i]@, max_attempts as nat),
                ),
            forall|i: int|
                pos <= i < n ==> !store.has_doc(#[trigger] pending@[i].version_id as int),
        decreases n - pos,
    {
        let remaining = n - pos;
        let tk = if batch_size < remaining {
            batch_size
        } else {
            remaining
        };
        let mut bids: Vec<i32> = Vec::new();
        let mut bscripts: Vec<Vec<Attempt>> = Vec::new();
        let mut t: usize = 0;
        while t < tk
            invariant
                t <= tk,
                tk <= n - pos,
                bids@.len() == t,
                bscripts@.len() == t,
                forall|u: int| 0 <= u < t ==> #[trigger] bids@[u] == pending@[pos + u].version_id,
                forall|u: int| 0 <= u < t ==> #[trigger] bscripts@[u] == fullscripts[pos + u],
                scripts@ == fullscripts.skip(pos + t),
            decreases tk - t,
        {
            proof {
                assert(fullscripts.skip(pos + t)[0] == fullscripts[pos + t]);
                assert(fullscripts.skip(pos + t).skip(1) =~= fullscripts.skip(pos + t + 1));
            }
            bids.push(pending[pos + t].version_id);
            bscripts.push(scripts.remove(0));
            t = t + 1;
        }
        let ghost gb = bscripts@;
        let ghost predocs = store.documents@;
        proof {
            assert forall|u: int| 0 <= u < gb.len() implies 1 <= max_attempts <= (
            #[trigger] gb[u])@.len() by {
                assert(gb[u] == fullscripts[pos + u]);
            }
        }
        let result = process_batch(store, &bids, bscripts, max_attempts);
        match result {
            Ok(outs) => {
                proof {
                    lemma_first_fatal_inv(gb, max_attempts as nat);
                    assert forall|i: int| pos <= i < pos + tk implies !spec_item_fatal(
                        #[trigger] fullscripts[i]@,
                        max_attempts as nat,
                    ) by {
                        assert(gb[i - pos] == fullscripts[i]);
                    }
                }
                let mut u: usize = 0;
                while u < outs.len()
                    invariant
                        u <= outs@.len(),
                        outs@.len() == tk,
                        outcomes@.len() == pos + u,
                        forall|i: int|
                            0 <= i < pos ==> outcomes@[i] == spec_item_outcome(
                                #[trigger] fullscripts[i]@,
                                max_attempts as nat,
                            ),
                        forall|i: int|
                            pos <= i < pos + u ==> outcomes@[i] == spec_item_outcome(
                                #[trigger] fullscripts[i]@,
                                max_attempts as nat,
                            ),
                    decreases outs@.len() - u,
                {
                    outcomes.push(outs[u]);
                    proof {
                        assert(outs@[u as int] == spec_item_outcome(gb[u as int]@, max_attempts as nat));
                        assert(gb[u as int] == fullscripts[pos + u]);
                    }
                    u = u + 1;
                }
                proof {
                    // items of later batches stay untouched: their keys differ
                    // from every key of this batch
                    assert forall|i: int| pos + tk <= i < n implies !store.has_doc(
                        #[trigger] pending@[i].version_id as int,
                    ) by {
                        if ids_have(bids@, pending@[i].version_id as int) {
                            let k = choose|k: int|
                                0 <= k < bids@.len() && bids@[k] == pending@[i].version_id as int;
                            assert(pending@[pos + k].version_id == pending@[i].version_id);
                            assert(false);
                        }
                    }
                    assert forall|i: int| 0 <= i < pos + tk implies (store.has_doc(
                        #[trigger] pending@[i].version_id as int,
                    ) == spec_item_persisted(fullscripts[i]@, max_attempts as nat)) by {
                        if i < pos {
                            if ids_have(bids@, pending@[i].version_id as int) {
                                let k = choose|k: int|
                                    0 <= k < bids@.len() && bids@[k] == pending@[i].version_id as int;
                                assert(pending@[pos + k].version_id == pending@[i].version_id);
                                assert(false);
                            }
                        } else {
                            assert(bids@[i - pos] == pending@[i].version_id);
                            assert(gb[i - pos] == fullscripts[i]);
                        }
                    }
                    assert forall|i: int|
                        0 <= i < pos + tk && spec_item_persisted(
                            #[trigger] fullscripts[i]@,
                            max_attempts as nat,
                        ) implies docs_have_with(
                        store.documents@,
                        pending@[i].version_id as int,
                        spec_item_content(fullscripts[i]@, max_attempts as nat),
                    ) by {
                        if i < pos {
                            let k = choose|k: int|
                                0 <= k < predocs.len() && predocs[k].version_id
                                    == pending@[i].version_id as int && predocs[k].content@
                                    == spec_item_content(fullscripts[i]@, max_attempts as nat);
                            assert(store.documents@[k] == predocs[k]);
                        } else {
                            assert(bids@[i - pos] == pending@[i].version_id);
                            assert(gb[i - pos] == fullscripts[i]);
                        }
                    }
                }
                proof {
                    assert(batches_done <= batches_done * batch_size) by (nonlinear_arith)
                        requires
                            batch_size >= 1,
                            batches_done >= 0,
                    ;
                }
                batches_done = batches_done + 1;
                pos = pos + tk;
                proof {
                    assert(batches_done * batch_size == (batches_done - 1) * batch_size
                        + batch_size) by (nonlinear_arith);
                }
            },
            Err(e) => {
                proof {
                    lemma_first_fatal_inv(gb, max_attempts as nat);
                    let jb = spec_first_fatal(gb, max_attempts as nat)->Some_0;
                    assert(gb[jb] == fullscripts[pos + jb]);
                    assert forall|i: int| 0 <= i < pos + jb implies !spec_item_fatal(
                        #[trigger] fullscripts[i]@,
                        max_attempts as nat,
                    ) by {
                        if i >= pos {
                            assert(gb[i - pos] == fullscripts[i]);
                        }
                    }
                    lemma_first_fatal_at(fullscripts, max_attempts as nat, pos + jb);
                }
                return RunReport { outcomes, batches_done, fatal: Some(e) };
            },
        }
    }
    proof {
        lemma_first_fatal_none(fullscripts, max_attempts as nat);
    }
    RunReport { outcomes, batches_done, fatal: None }
}

} // verus!
