//! The layered counter as mathematics: one count per layer, outermost
//! first, with the carry that keeps outer layers from falling behind.

use vstd::prelude::*;

verus! {

/// Monotone nesting: no layer is ahead of a layer outside it.
pub open spec fn nested(c: Seq<nat>) -> bool {
    forall|i: int, j: int| 0 <= i <= j < c.len() ==> #[trigger] c[i] >= #[trigger] c[j]
}

/// Whether a count of `value` may still be advanced under `limit`; `None`
/// is no limit.
pub open spec fn within(limit: Option<nat>, value: nat) -> bool {
    match limit {
        Some(size) => value < size,
        None => true,
    }
}

/// A counter that advancing can reach: nested, and no layer past the limit.
pub open spec fn valid(c: Seq<nat>, limit: Option<nat>) -> bool {
    &&& nested(c)
    &&& forall|j: int| 0 <= j < c.len() ==> #[trigger] c[j] == 0 || within(limit, (c[j] - 1) as nat)
}

/// The carry from layer `k` outwards, one layer at a time: while the layer
/// outside `k` is behind layer `k`, it is incremented and the scan moves
/// to it.
pub open spec fn settled(c: Seq<nat>, k: int) -> Seq<nat>
    decreases k,
{
    if 0 < k < c.len() && c[k - 1] < c[k] {
        settled(c.update(k - 1, c[k - 1] + 1), k - 1)
    } else {
        c
    }
}

/// Layer `n` incremented, then the carry from it.
pub open spec fn bumped(c: Seq<nat>, n: int) -> Seq<nat> {
    settled(c.update(n, c[n] + 1), n)
}

/// Advancing layer `n` of a nested counter, in closed form: layer `n` and
/// every layer outside it that was level with it move up by one; the rest
/// stay.
pub open spec fn advanced(c: Seq<nat>, n: int) -> Seq<nat> {
    Seq::new(
        c.len(),
        |j: int|
            if j <= n && c[j] <= c[n] {
                c[n] + 1
            } else {
                c[j]
            },
    )
}

/// Whether advancing layer `n` is accepted: the layer exists and is within
/// the limit.
pub open spec fn accepted(c: Seq<nat>, limit: Option<nat>, n: int) -> bool {
    0 <= n < c.len() && within(limit, c[n])
}

/// One call: an accepted advance moves the counter, a refused one leaves it.
pub open spec fn step(c: Seq<nat>, limit: Option<nat>, n: int) -> Seq<nat> {
    if accepted(c, limit, n) {
        advanced(c, n)
    } else {
        c
    }
}

/// The counter after the calls `steps`, in order.
pub open spec fn run(c: Seq<nat>, limit: Option<nat>, steps: Seq<int>) -> Seq<nat>
    decreases steps.len(),
{
    if steps.len() == 0 {
        c
    } else {
        step(run(c, limit, steps.drop_last()), limit, steps.last())
    }
}

/// The innermost layer stands at the limit: the session is complete.
pub open spec fn completed(c: Seq<nat>, limit: Option<nat>) -> bool {
    c.len() > 0 && !within(limit, c.last())
}

/// How many of the calls `steps` were accepted and left the counter
/// complete: the number of times the final cleanup is due.
pub open spec fn cleanups(c: Seq<nat>, limit: Option<nat>, steps: Seq<int>) -> nat
    decreases steps.len(),
{
    if steps.len() == 0 {
        0
    } else {
        let before = run(c, limit, steps.drop_last());
        let due: nat = if accepted(before, limit, steps.last()) && completed(
            step(before, limit, steps.last()),
            limit,
        ) {
            1
        } else {
            0
        };
        cleanups(c, limit, steps.drop_last()) + due
    }
}

proof fn lemma_settled(c: Seq<nat>, n: int, k: int, v: nat)
    requires
        0 <= k <= n < c.len(),
        forall|j: int| k <= j <= n ==> #[trigger] c[j] == v,
        forall|j: int| 0 <= j < k ==> #[trigger] c[j] >= v - 1,
        forall|i: int, j: int| 0 <= i <= j < k ==> #[trigger] c[i] >= #[trigger] c[j],
        v >= 1,
    ensures
        settled(c, k).len() == c.len(),
        forall|j: int| 0 <= j < c.len() ==> #[trigger] settled(c, k)[j] == (if j < k && c[j] < v {
            v
        } else {
            c[j]
        }),
    decreases k,
{
    if 0 < k && c[k - 1] < c[k] {
        let d = c.update(k - 1, c[k - 1] + 1);
        assert(c[k - 1] == v - 1);
        assert forall|j: int| 0 <= j < k - 1 implies #[trigger] d[j] >= v - 1 by {
            assert(c[j] >= c[k - 1]);
        }
        lemma_settled(d, n, k - 1, v);
        assert forall|j: int| 0 <= j < c.len() implies #[trigger] settled(c, k)[j] == (if j < k
            && c[j] < v {
            v
        } else {
            c[j]
        }) by {
            if j < k - 1 {
                assert(c[j] >= c[k - 1]);
            }
        }
    } else if 0 < k {
        assert forall|j: int| 0 <= j < k implies !(#[trigger] c[j] < v) by {
            assert(c[j] >= c[k - 1]);
        }
    }
}

/// On a nested counter the carry, taken one layer at a time, ends in the
/// closed form.
pub proof fn lemma_bumped_is_advanced(c: Seq<nat>, n: int)
    requires
        nested(c),
        0 <= n < c.len(),
    ensures
        bumped(c, n) == advanced(c, n),
{
    let d = c.update(n, c[n] + 1);
    let v = c[n] + 1;
    assert forall|j: int| 0 <= j < n implies #[trigger] d[j] >= v - 1 by {
        assert(c[j] >= c[n]);
    }
    lemma_settled(d, n, n, v as nat);
    assert(bumped(c, n) =~= advanced(c, n));
}

/// Monotone nesting is kept: an advance of a valid counter within its limit
/// gives a valid counter, with layer `n` up by exactly one and no layer
/// down.
pub proof fn lemma_advanced_valid(c: Seq<nat>, limit: Option<nat>, n: int)
    requires
        valid(c, limit),
        accepted(c, limit, n),
    ensures
        valid(advanced(c, n), limit),
        advanced(c, n).len() == c.len(),
        advanced(c, n)[n] == c[n] + 1,
        forall|j: int| 0 <= j < c.len() ==> c[j] <= #[trigger] advanced(c, n)[j] <= c[j] + 1,
{
    let d = advanced(c, n);
    assert forall|i: int, j: int| 0 <= i <= j < d.len() implies #[trigger] d[i] >= #[trigger] d[j] by {
        assert(c[i] >= c[j]);
        if j <= n {
            assert(c[j] >= c[n]);
            assert(c[i] >= c[n]);
        }
    }
    assert forall|j: int| 0 <= j < c.len() implies c[j] <= #[trigger] d[j] <= c[j] + 1 by {
        if j <= n {
            assert(c[j] >= c[n]);
        }
    }
}

/// Monotone nesting holds after every sequence of calls on a valid
/// counter, whichever of them are accepted.
pub proof fn lemma_run_valid(c: Seq<nat>, limit: Option<nat>, steps: Seq<int>)
    requires
        valid(c, limit),
    ensures
        valid(run(c, limit, steps), limit),
        nested(run(c, limit, steps)),
        run(c, limit, steps).len() == c.len(),
    decreases steps.len(),
{
    if steps.len() > 0 {
        lemma_run_valid(c, limit, steps.drop_last());
        let before = run(c, limit, steps.drop_last());
        if accepted(before, limit, steps.last()) {
            lemma_advanced_valid(before, limit, steps.last());
        }
    }
}

/// Once the innermost layer stands at the limit, every layer does, and no
/// further advance is accepted.
pub proof fn lemma_completed_is_final(c: Seq<nat>, limit: Option<nat>, n: int)
    requires
        valid(c, limit),
        completed(c, limit),
    ensures
        !accepted(c, limit, n),
{
    if 0 <= n < c.len() {
        assert(c[n] >= c.last());
    }
}

/// The final cleanup falls due at most once in a session, and never again
/// after the counter is complete.
pub proof fn lemma_cleanup_once(c: Seq<nat>, limit: Option<nat>, steps: Seq<int>)
    requires
        valid(c, limit),
    ensures
        cleanups(c, limit, steps) <= 1,
        completed(c, limit) ==> cleanups(c, limit, steps) == 0,
        cleanups(c, limit, steps) == 1 ==> completed(run(c, limit, steps), limit),
        completed(c, limit) ==> run(c, limit, steps) == c,
    decreases steps.len(),
{
    if steps.len() > 0 {
        lemma_cleanup_once(c, limit, steps.drop_last());
        lemma_run_valid(c, limit, steps.drop_last());
        let before = run(c, limit, steps.drop_last());
        if completed(before, limit) {
            lemma_completed_is_final(before, limit, steps.last());
        }
    }
}

/// The counter of `len` layers before any advance.
pub open spec fn zeros(len: nat) -> Seq<nat> {
    Seq::new(len, |j: int| 0nat)
}

/// From the zero counter no layer counts more than the calls made: a call
/// moves a layer by one at most.
pub proof fn lemma_counts_within_calls(len: nat, limit: Option<nat>, steps: Seq<int>)
    ensures
        run(zeros(len), limit, steps).len() == len,
        valid(run(zeros(len), limit, steps), limit),
        forall|j: int| 0 <= j < len ==> #[trigger] run(zeros(len), limit, steps)[j] <= steps.len(),
    decreases steps.len(),
{
    lemma_run_valid(zeros(len), limit, steps);
    if steps.len() > 0 {
        lemma_counts_within_calls(len, limit, steps.drop_last());
        let before = run(zeros(len), limit, steps.drop_last());
        if accepted(before, limit, steps.last()) {
            lemma_advanced_valid(before, limit, steps.last());
        }
    }
}

/// Under a bound of at least as many units as calls are made, every call
/// on an existing layer is accepted, in whatever order the calls come: the
/// call after the calls `steps` finds its layer within the bound.
pub proof fn lemma_calls_within_size_accepted(len: nat, size: nat, steps: Seq<int>, n: int)
    requires
        steps.len() < size,
        0 <= n < len,
    ensures
        accepted(run(zeros(len), Some(size), steps), Some(size), n),
{
    lemma_counts_within_calls(len, Some(size), steps);
}

/// The layers `0, 1, .., count - 1`, outermost first.
pub open spec fn in_order(count: nat) -> Seq<int> {
    Seq::new(count, |k: int| k)
}

/// The counter with the outer `done` layers at one and the rest at zero.
pub open spec fn ones_then_zeros(len: nat, done: nat) -> Seq<nat> {
    Seq::new(
        len,
        |j: int|
            if j < done {
                1nat
            } else {
                0nat
            },
    )
}

/// Each of the first `done` layers advanced once, outermost first, from
/// the zero counter under a limit of at least one: every call is accepted
/// and moves its own layer alone, so nothing is lost or counted twice.
pub proof fn lemma_once_each_in_order(len: nat, limit: Option<nat>, done: nat)
    requires
        done <= len,
        within(limit, 0),
    ensures
        run(zeros(len), limit, in_order(done)) == ones_then_zeros(len, done),
        done > 0 ==> accepted(
            run(zeros(len), limit, in_order((done - 1) as nat)),
            limit,
            done - 1,
        ),
    decreases done,
{
    assert(zeros(len) =~= ones_then_zeros(len, 0));
    if done > 0 {
        let k = (done - 1) as nat;
        lemma_once_each_in_order(len, limit, k);
        assert(in_order(done).drop_last() =~= in_order(k));
        let before = ones_then_zeros(len, k);
        assert(before[k as int] == 0);
        assert(advanced(before, k as int) =~= ones_then_zeros(len, done));
    }
}

} // verus!
