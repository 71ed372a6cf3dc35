use vstd::prelude::*;
use crate::item::FetchedDocument;

verus! {

/// How one fetch attempt against the remote host ended: either no response
/// arrived at all, or a response with a status code and a body did.
pub enum Attempt {
    /// A transport-level failure (connection error or timeout).
    Transport,
    /// An HTTP response carrying this status code and body.
    Response(u16, Vec<u8>),
}

/// What an HTTP status code means for the item that was fetched.
#[derive(PartialEq, Eq, Structural, Clone, Copy, Debug)]
pub enum StatusClass {
    /// The body is the document.
    Success,
    /// The document does not exist for this version; the item is skipped.
    NotFound,
    /// Any other client or server error; fatal for the whole pipeline.
    Fatal,
}

/// Why an item was left unpersisted without aborting the pipeline.
#[derive(PartialEq, Eq, Structural, Clone, Copy, Debug)]
pub enum SkipReason {
    /// Every attempt failed at the transport level.
    RetriesExhausted,
    /// The host answered that the document does not exist.
    NotFound,
}

/// How one work item ended after its fetch attempts.
pub enum FetchOutcome {
    /// The document was fetched and is to be persisted with its batch.
    Fetched(FetchedDocument),
    /// The item was skipped; it stays absent from storage.
    Skipped(SkipReason),
    /// An unexpected HTTP status, carried here; it aborts the whole pipeline.
    Fatal(u16),
}

pub open spec fn spec_classify_status(status: u16) -> StatusClass {
    if status == 404 {
        StatusClass::NotFound
    } else if 400 <= status < 600 {
        StatusClass::Fatal
    } else {
        StatusClass::Success
    }
}

/// Interpret the status of the response that ended an item's fetch: a
/// not-found is an expected absence, any other client or server error is
/// fatal, and everything else is a success whose body is the document.
pub fn classify_status(status: u16) -> (r: StatusClass)
    ensures
        r == spec_classify_status(status),
{
    if status == 404 {
        StatusClass::NotFound
    } else if 400 <= status && status < 600 {
        StatusClass::Fatal
    } else {
        StatusClass::Success
    }
}

pub open spec fn pow2(e: nat) -> nat
    decreases e,
{
    if e == 0 {
        1
    } else {
        2 * pow2((e - 1) as nat)
    }
}

/// The delay before the next attempt: `base * 2^attempt` milliseconds,
/// saturating at the largest representable delay. Randomized jitter is added
/// by the caller that actually sleeps.
pub open spec fn spec_backoff_delay(base: u64, attempt: nat) -> u64 {
    if base * pow2(attempt) > u64::MAX {
        u64::MAX
    } else {
        (base * pow2(attempt)) as u64
    }
}

/// Compute the exponential backoff delay for the given zero-based attempt.
pub fn backoff_delay_ms(base: u64, attempt: u32) -> (r: u64)
    ensures
        r == spec_backoff_delay(base, attempt as nat),
{
    let mut d: u64 = base;
    let mut i: u32 = 0;
    let mut saturated: bool = false;
    proof {
        assert(pow2(0) == 1);
    }
    while i < attempt
        invariant
            i <= attempt,
            !saturated ==> d == base * pow2(i as nat) && base * pow2(i as nat) <= u64::MAX,
            saturated ==> d == u64::MAX && base * pow2(i as nat) > u64::MAX,
        decreases attempt - i,
    {
        proof {
            assert(pow2((i + 1) as nat) == 2 * pow2(i as nat));
            assert(base * (2 * pow2(i as nat)) == 2 * (base * pow2(i as nat)))
                by (nonlinear_arith);
        }
        if saturated {
            // stays at the ceiling: doubling cannot come back below it
        } else if d <= u64::MAX / 2 {
            d = d * 2;
        } else {
            saturated = true;
            d = u64::MAX;
        }
        i = i + 1;
    }
    d
}

/// The number of attempts a bounded retry makes against this sequence of
/// attempt results: it stops at the first response, and never exceeds the
/// attempt budget.
pub open spec fn spec_attempts_used(script: Seq<Attempt>, max: nat) -> nat
    recommends
        1 <= max <= script.len(),
    decreases max,
{
    if max <= 1 {
        1
    } else {
        match script[0] {
            Attempt::Transport => 1 + spec_attempts_used(script.skip(1), (max - 1) as nat),
            Attempt::Response(..) => 1,
        }
    }
}

/// The attempt result that the retry loop surfaces to its caller.
pub open spec fn spec_final_attempt(script: Seq<Attempt>, max: nat) -> Attempt
    recommends
        1 <= max <= script.len(),
{
    script[spec_attempts_used(script, max) - 1]
}

/// The bounded retry always makes at least one attempt and never exceeds its
/// attempt budget, whatever the host answers.
pub proof fn lemma_attempts_used_bounds(script: Seq<Attempt>, max: nat)
    requires
        1 <= max <= script.len(),
    ensures
        1 <= spec_attempts_used(script, max) <= max,
    decreases max,
{
    if max > 1 {
        match script[0] {
            Attempt::Transport => {
                lemma_attempts_used_bounds(script.skip(1), (max - 1) as nat);
            },
            Attempt::Response(..) => {},
        }
    }
}

/// If the first `i` attempts fail at the transport level and attempt `i`
/// either gets a response or is the last one allowed, the retry stops right
/// after attempt `i`.
pub proof fn lemma_attempts_used_at(script: Seq<Attempt>, max: nat, i: int)
    requires
        1 <= max <= script.len(),
        0 <= i < max,
        forall|j: int| 0 <= j < i ==> script[j] is Transport,
        (script[i] matches Attempt::Response(..)) || i == max - 1,
    ensures
        spec_attempts_used(script, max) == i + 1,
    decreases i,
{
    if i == 0 {
        if max > 1 {
            assert(script[0] matches Attempt::Response(..));
        }
    } else {
        assert(script[0] is Transport);
        let tail = script.skip(1);
        assert(forall|j: int| 0 <= j < i - 1 ==> tail[j] == script[j + 1]);
        assert(tail[i - 1] == script[i]);
        lemma_attempts_used_at(tail, (max - 1) as nat, i - 1);
    }
}

/// A host that fails at the transport level for the first `k` attempts and
/// then answers successfully leads to a persisted item, with exactly `k + 1`
/// attempts made — never more than the attempt budget.
pub proof fn lemma_retry_transient_then_success(script: Seq<Attempt>, max: nat, k: int)
    requires
        1 <= max <= script.len(),
        0 <= k < max,
        forall|i: int| 0 <= i < k ==> script[i] is Transport,
        (script[k] matches Attempt::Response(s, _) && spec_classify_status(s) is Success),
    ensures
        spec_attempts_used(script, max) == k + 1,
        spec_item_persisted(script, max),
{
    lemma_attempts_used_at(script, max, k);
}

/// Whether the retry ends in a response whose status is fatal for the run.
pub open spec fn spec_item_fatal(script: Seq<Attempt>, max: nat) -> bool {
    match spec_final_attempt(script, max) {
        Attempt::Transport => false,
        Attempt::Response(s, _) => spec_classify_status(s) is Fatal,
    }
}

/// The status code of a fatal final response.
pub open spec fn spec_item_fatal_status(script: Seq<Attempt>, max: nat) -> u16
    recommends
        spec_item_fatal(script, max),
{
    match spec_final_attempt(script, max) {
        Attempt::Transport => 0,
        Attempt::Response(s, _) => s,
    }
}

/// Whether the retry ends in a successful response, so that the item's
/// document is persisted with its batch.
pub open spec fn spec_item_persisted(script: Seq<Attempt>, max: nat) -> bool {
    match spec_final_attempt(script, max) {
        Attempt::Transport => false,
        Attempt::Response(s, _) => spec_classify_status(s) is Success,
    }
}

/// The document a persisted item contributes.
pub open spec fn spec_item_content(script: Seq<Attempt>, max: nat) -> Seq<u8>
    recommends
        spec_item_persisted(script, max),
{
    match spec_final_attempt(script, max) {
        Attempt::Transport => Seq::empty(),
        Attempt::Response(_, b) => b@,
    }
}

/// Fetch one item against a scripted sequence of attempt results: retry on
/// transport failure up to `max_attempts` attempts, then interpret the final
/// result. Returns the outcome and the number of attempts made.
#[verifier::loop_isolation(false)]
pub fn resolve_item(version_id: i32, script: Vec<Attempt>, max_attempts: usize) -> (r: (
    FetchOutcome,
    usize,
))
    requires
        1 <= max_attempts <= script@.len(),
    ensures
        r.1 == spec_attempts_used(script@, max_attempts as nat),
        1 <= r.1 <= max_attempts,
        ({
            let fin = spec_final_attempt(script@, max_attempts as nat);
            match fin {
                Attempt::Transport => r.0 == FetchOutcome::Skipped(SkipReason::RetriesExhausted),
                Attempt::Response(s, b) => {
                    if spec_classify_status(s) is NotFound {
                        r.0 == FetchOutcome::Skipped(SkipReason::NotFound)
                    } else if spec_classify_status(s) is Fatal {
                        r.0 == FetchOutcome::Fatal(s)
                    } else {
                        r.0 matches FetchOutcome::Fetched(d) && d.version_id == version_id
                            && d.content@ == b@
                    }
                },
            }
        }),
{
    let ghost orig = script@;
    let mut script = script;
    let mut i: usize = 0;
    loop
        invariant
            script@ == orig,
            1 <= max_attempts <= orig.len(),
            0 <= i < max_attempts,
            forall|j: int| 0 <= j < i ==> orig[j] is Transport,
        decreases max_attempts - i,
    {
        let is_response = match &script[i] {
            Attempt::Transport => false,
            Attempt::Response(..) => true,
        };
        if is_response {
            proof {
                lemma_attempts_used_at(orig, max_attempts as nat, i as int);
            }
            let a = script.remove(i);
            match a {
                Attempt::Transport => {
                    // unreachable: the attempt at this index is a response
                    proof {
                        assert(false);
                    }
                    return (FetchOutcome::Skipped(SkipReason::RetriesExhausted), i + 1);
                },
                Attempt::Response(status, body) => {
                    let cls = classify_status(status);
                    match cls {
                        StatusClass::NotFound => {
                            return (FetchOutcome::Skipped(SkipReason::NotFound), i + 1);
                        },
                        StatusClass::Fatal => {
                            return (FetchOutcome::Fatal(status), i + 1);
                        },
                        StatusClass::Success => {
                            let doc = FetchedDocument { version_id, content: body };
                            return (FetchOutcome::Fetched(doc), i + 1);
                        },
                    }
                },
            }
        } else if i + 1 == max_attempts {
            proof {
                lemma_attempts_used_at(orig, max_attempts as nat, i as int);
            }
            return (FetchOutcome::Skipped(SkipReason::RetriesExhausted), i + 1);
        } else {
            i = i + 1;
        }
    }
}

} // verus!
