//! What holds of every pass over a batch of advertising reports.

use crate::scan::{after, outcome, step, yielded, Batch, ReportFormat};
use vstd::prelude::*;

verus! {

/// Whether `n` reports can be read from `bytes`, one behind the other.
pub open spec fn well_formed(format: ReportFormat, n: nat, bytes: Seq<u8>) -> bool
    decreases n,
{
    n == 0 || (outcome(format, bytes) is Ok && well_formed(
        format,
        (n - 1) as nat,
        bytes.skip(outcome(format, bytes)->Ok_0 as int),
    ))
}

/// Whether `k` reports can be read from `bytes` and the one behind them
/// cannot.
pub open spec fn corrupt_at(format: ReportFormat, k: nat, bytes: Seq<u8>) -> bool
    decreases k,
{
    if k == 0 {
        outcome(format, bytes) is Err
    } else {
        outcome(format, bytes) is Ok && corrupt_at(
            format,
            (k - 1) as nat,
            bytes.skip(outcome(format, bytes)->Ok_0 as int),
        )
    }
}

proof fn lemma_after_well_formed(format: ReportFormat, n: nat, bytes: Seq<u8>, i: nat)
    requires
        well_formed(format, n, bytes),
        i <= n,
    ensures
        after(format, Batch { remaining: n, bytes }, i).remaining == n - i,
        well_formed(format, (n - i) as nat, after(format, Batch { remaining: n, bytes }, i).bytes),
    decreases i,
{
    if i > 0 {
        lemma_after_well_formed(format, n, bytes, (i - 1) as nat);
    }
}

proof fn lemma_after_corrupt(format: ReportFormat, n: nat, k: nat, bytes: Seq<u8>, i: nat)
    requires
        corrupt_at(format, k, bytes),
        k < n,
        i <= k,
    ensures
        after(format, Batch { remaining: n, bytes }, i).remaining == n - i,
        corrupt_at(format, (k - i) as nat, after(format, Batch { remaining: n, bytes }, i).bytes),
    decreases i,
{
    if i > 0 {
        lemma_after_corrupt(format, n, k, bytes, (i - 1) as nat);
    }
}

/// Once no report is left, none is left after any number of further steps,
/// and the bytes stay where they are.
pub proof fn lemma_exhausted_stays_exhausted(format: ReportFormat, b: Batch, from: nat, i: nat)
    requires
        after(format, b, from).remaining == 0,
        from <= i,
    ensures
        after(format, b, i) == after(format, b, from),
        yielded(format, after(format, b, i)) is None,
    decreases i,
{
    if i > from {
        lemma_exhausted_stays_exhausted(format, b, from, (i - 1) as nat);
    }
}

/// A pass over a batch that declares `n` reports and holds `n` readable
/// ones yields a report at each of the first `n` steps and nothing at any
/// later step. Before step `i` the iterator's length is `n - i`.
pub proof fn lemma_well_formed_batch_yields_all(format: ReportFormat, n: nat, bytes: Seq<u8>)
    requires
        well_formed(format, n, bytes),
    ensures
        forall|i: nat|
            i < n ==> (#[trigger] after(format, Batch { remaining: n, bytes }, i)).remaining == n
                - i && yielded(format, after(format, Batch { remaining: n, bytes }, i)) is Some
                && yielded(format, after(format, Batch { remaining: n, bytes }, i))->Some_0 is Ok,
        forall|i: nat|
            i >= n ==> (#[trigger] after(format, Batch { remaining: n, bytes }, i)).remaining == 0
                && yielded(format, after(format, Batch { remaining: n, bytes }, i)) is None,
{
    let start = Batch { remaining: n, bytes };
    assert forall|i: nat| i < n implies (#[trigger] after(format, start, i)).remaining == n - i
        && yielded(format, after(format, start, i)) is Some && yielded(
        format,
        after(format, start, i),
    )->Some_0 is Ok by {
        lemma_after_well_formed(format, n, bytes, i);
    }
    assert forall|i: nat| i >= n implies (#[trigger] after(format, start, i)).remaining == 0
        && yielded(format, after(format, start, i)) is None by {
        lemma_after_well_formed(format, n, bytes, n);
        lemma_exhausted_stays_exhausted(format, start, n, i);
    }
}

/// A pass over a batch that declares `n` reports and stops making sense
/// behind the first `k < n` yields a report at each of the first `k` steps,
/// an error at the step behind them, and nothing at any later step.
pub proof fn lemma_corrupt_batch_yields_one_error(
    format: ReportFormat,
    n: nat,
    k: nat,
    bytes: Seq<u8>,
)
    requires
        k < n,
        corrupt_at(format, k, bytes),
    ensures
        forall|i: nat|
            i < k ==> (#[trigger] after(format, Batch { remaining: n, bytes }, i)).remaining == n
                - i && yielded(format, after(format, Batch { remaining: n, bytes }, i)) is Some
                && yielded(format, after(format, Batch { remaining: n, bytes }, i))->Some_0 is Ok,
        yielded(format, after(format, Batch { remaining: n, bytes }, k)) is Some,
        yielded(format, after(format, Batch { remaining: n, bytes }, k))->Some_0 is Err,
        forall|i: nat|
            i > k ==> (#[trigger] after(format, Batch { remaining: n, bytes }, i)).remaining == 0
                && yielded(format, after(format, Batch { remaining: n, bytes }, i)) is None,
{
    let start = Batch { remaining: n, bytes };
    assert forall|i: nat| i < k implies (#[trigger] after(format, start, i)).remaining == n - i
        && yielded(format, after(format, start, i)) is Some && yielded(
        format,
        after(format, start, i),
    )->Some_0 is Ok by {
        lemma_after_corrupt(format, n, k, bytes, i);
    }
    lemma_after_corrupt(format, n, k, bytes, k);
    assert(after(format, start, k + 1) == step(format, after(format, start, k)));
    assert forall|i: nat| i > k implies (#[trigger] after(format, start, i)).remaining == 0
        && yielded(format, after(format, start, i)) is None by {
        lemma_exhausted_stays_exhausted(format, start, k + 1, i);
    }
}

} // verus!
