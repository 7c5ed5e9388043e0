//! The decision side of the embedding client: batch splitting within the
//! provider's cap, and the retry policy with exponential backoff. The
//! network calls themselves live outside the library and hand their
//! outcomes back as plain values.

use vstd::prelude::*;

verus! {

/// The provider accepts at most this many texts per request.
pub const PROVIDER_BATCH_CAP: usize = 2048;

/// The batch size actually used: the configured one, capped at the
/// provider's limit.
pub fn effective_batch_size(requested: usize) -> (r: usize)
    ensures
        r == (if requested <= 2048 {
            requested as int
        } else {
            2048
        }),
{
    if requested <= PROVIDER_BATCH_CAP {
        requested
    } else {
        PROVIDER_BATCH_CAP
    }
}

/// The texts split into request batches of at most `batch_size`, in
/// order: the concatenation of the batches is the input, and every batch
/// but the last is full.
pub fn split_batches(texts: &Vec<String>, batch_size: usize) -> (r: Vec<Vec<String>>)
    requires
        batch_size >= 1,
    ensures
        flatten_texts(r.deep_view()) == texts.deep_view(),
        forall|b: int|
            0 <= b < r.deep_view().len() ==> 1 <= (#[trigger] r.deep_view()[b]).len()
                <= batch_size,
        forall|b: int|
            0 <= b < r.deep_view().len() - 1 ==> (#[trigger] r.deep_view()[b]).len()
                == batch_size,
{
    broadcast use Seq::lemma_flatten_push;

    let ghost tdv = texts.deep_view();
    let mut r: Vec<Vec<String>> = Vec::new();
    let mut start: usize = 0;
    proof {
        assert(r.deep_view() =~= Seq::<Seq<Seq<char>>>::empty());
        assert(flatten_texts(r.deep_view()) =~= tdv.subrange(0, 0));
    }
    while start < texts.len()
        invariant_except_break
            start <= texts@.len(),
            batch_size >= 1,
            tdv == texts.deep_view(),
            flatten_texts(r.deep_view()) == tdv.subrange(0, start as int),
            forall|b: int|
                0 <= b < r.deep_view().len() ==> (#[trigger] r.deep_view()[b]).len() == batch_size,
        ensures
            flatten_texts(r.deep_view()) == tdv,
            forall|b: int|
                0 <= b < r.deep_view().len() ==> 1 <= (#[trigger] r.deep_view()[b]).len()
                    <= batch_size,
            forall|b: int|
                0 <= b < r.deep_view().len() - 1 ==> (#[trigger] r.deep_view()[b]).len()
                    == batch_size,
        decreases texts@.len() - start,
    {
        let end = if batch_size < texts.len() - start {
            start + batch_size
        } else {
            texts.len()
        };
        let mut batch: Vec<String> = Vec::new();
        let mut j: usize = start;
        proof {
            assert(batch.deep_view() =~= tdv.subrange(start as int, start as int));
        }
        while j < end
            invariant
                start <= j <= end <= texts@.len(),
                tdv == texts.deep_view(),
                batch.deep_view() == tdv.subrange(start as int, j as int),
            decreases end - j,
        {
            let ghost old_dv = batch.deep_view();
            batch.push(texts[j].clone());
            proof {
                assert(batch.deep_view() =~= old_dv.push(tdv[j as int]));
                assert(batch.deep_view() =~= tdv.subrange(start as int, j + 1 as int));
            }
            j = j + 1;
        }
        let ghost old_r = r.deep_view();
        let ghost bdv = batch.deep_view();
        let at_end = end == texts.len();
        r.push(batch);
        proof {
            assert(r.deep_view() =~~= old_r.push(bdv));
            assert(flatten_texts(r.deep_view()) =~= flatten_texts(old_r) + bdv) by {
                old_r.push(bdv).lemma_flatten_and_flatten_alt_are_equivalent();
                old_r.lemma_flatten_and_flatten_alt_are_equivalent();
                assert(old_r.push(bdv).drop_last() =~= old_r);
            }
            assert(flatten_texts(r.deep_view()) =~= tdv.subrange(0, end as int));
            assert(bdv.len() >= 1);
        }
        if at_end {
            proof {
                assert(tdv.subrange(0, tdv.len() as int) =~= tdv);
                assert(forall|b: int|
                    0 <= b < r.deep_view().len() - 1 ==> (#[trigger] r.deep_view()[b]).len()
                        == batch_size);
            }
            break ;
        }
        proof {
            assert(end == start + batch_size);
            assert(bdv.len() == batch_size);
        }
        start = end;
    }
    proof {
        assert(tdv.subrange(0, tdv.len() as int) =~= tdv);
    }
    r
}

/// The flattened text list of a batch list.
pub open spec fn flatten_texts(batches: Seq<Seq<Seq<char>>>) -> Seq<Seq<char>> {
    batches.flatten()
}

/// Whether a provider response status calls for a retry: rate limiting
/// and server errors do, anything else surfaces at once.
pub open spec fn spec_retryable(status: u16) -> bool {
    status == 429 || (500 <= status && status <= 599)
}

/// Executable test for a retryable provider status.
#[verifier::when_used_as_spec(spec_retryable)]
pub fn is_retryable_status(status: u16) -> (b: bool)
    ensures
        b == spec_retryable(status),
{
    status == 429 || (500 <= status && status <= 599)
}

/// The next backoff delay: double, saturating at the integer limit.
pub fn next_backoff_ms(delay_ms: u64) -> (r: u64)
    ensures
        r == (if delay_ms <= u64::MAX / 2 {
            2 * delay_ms
        } else {
            u64::MAX as int
        }),
{
    if delay_ms <= u64::MAX / 2 {
        2 * delay_ms
    } else {
        u64::MAX
    }
}

/// What the retrying embed loop does after a failed attempt.
pub enum RetryDecision {
    /// Sleep for the given delay and try again.
    RetryAfter(u64),
    /// Give up and surface the error.
    GiveUp,
}

/// Decide whether a failed attempt is retried: only retryable statuses
/// within the retry budget are, with the doubled delay.
pub fn retry_decision(attempt: usize, max_retries: usize, status: u16, delay_ms: u64) -> (r:
    RetryDecision)
    ensures
        r is RetryAfter <==> attempt < max_retries && spec_retryable(status),
        r is RetryAfter ==> r->RetryAfter_0 == delay_ms,
{
    if attempt < max_retries && is_retryable_status(status) {
        RetryDecision::RetryAfter(delay_ms)
    } else {
        RetryDecision::GiveUp
    }
}

} // verus!
