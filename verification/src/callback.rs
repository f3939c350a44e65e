//! Handles that advance one shared progress state from several workers.
//! The state sits behind a lock; a call holds the lock for exactly one
//! advance.

use crate::arrow::{as_nats, Arrow};
use crate::bar::{BarView, Frame, Progress, ProgressBarHolder};
use crate::bound::Bound;
use crate::counter::valid;
use crate::error::ProgressError;
use std::sync::Arc;
use std::time::Instant;
use vstd::prelude::*;
use vstd::rwlock::{RwLock, RwLockPredicate};

verus! {

/// What stays the same while a progress state is shared: its bar, its
/// bound policy and the start of the session. The lock admits the states
/// of one session only.
pub ghost struct Session<B> {
    pub bar: BarView,
    pub policy: B,
    pub started: Option<Instant>,
}

impl<const N: usize, A: Arrow<N>, B: Bound> RwLockPredicate<ProgressBarHolder<N, A, B>> for Session<B> {
    open spec fn inv(self, v: ProgressBarHolder<N, A, B>) -> bool {
        &&& v.bar() == self.bar
        &&& v.policy() == self.policy
        &&& v.started() == self.started
    }
}

/// `Arc::clone`: one more owner of the same value.
#[verifier::external_body]
fn share<T>(shared: &Arc<T>) -> (r: Arc<T>)
    ensures
        r == *shared,
{
    Arc::clone(shared)
}

/// `TryFrom<Vec<T>>` for an array: the items of a vector of exactly `N`
/// items, as an array in the same order.
#[verifier::external_body]
fn into_array<T, const N: usize>(items: Vec<T>) -> (r: [T; N])
    requires
        items.len() == N,
    ensures
        r@ == items@,
{
    let array: Result<[T; N], Vec<T>> = items.try_into();
    array.ok().unwrap()
}

/// A progress state that several handles own and advance under a lock.
pub type Shared<const N: usize, A, B> = Arc<RwLock<ProgressBarHolder<N, A, B>, Session<B>>>;

/// One advance of layer `n` under the lock.
fn locked_inc<const N: usize, A: Arrow<N>, B: Bound>(
    progress: &RwLock<ProgressBarHolder<N, A, B>, Session<B>>,
    n: usize,
) -> (r: Result<Frame, ProgressError>)
    ensures
        served::<N, A, B>(progress.pred(), n, r),
        n >= N <==> r matches Err(ProgressError::OutOfRangeLayer),
        !(r matches Err(ProgressError::LayerBudgetExhausted)),
{
    let (mut holder, handle) = progress.acquire_write();
    let ghost before = holder;
    proof {
        use_type_invariant(&holder);
    }
    let r = holder.inc(n);
    proof {
        let post_msg = choose|post_msg: Seq<char>|
            before.stamp(post_msg) && #[trigger] before.answers(n, post_msg, r, holder);
        before.lemma_refusals(n, post_msg);
        assert(before.wf() && progress.pred().inv(before) && before.incremented(n, r, holder));
    }
    handle.release_write(holder);
    r
}

/// The counts of the shared state, outermost layer first, read under the
/// lock.
pub fn shared_counts<const N: usize, A: Arrow<N>, B: Bound>(progress: &Shared<N, A, B>) -> (c: [usize; N])
    ensures
        valid(as_nats(c@), progress.pred().policy.limit()),
{
    let handle = progress.acquire_read();
    let holder = handle.borrow();
    proof {
        use_type_invariant(holder);
    }
    let c = holder.counts();
    handle.release_read();
    c
}

/// `r` is the answer of some state of the session to one advance of layer
/// `n`: whatever counter the lock held, the call made exactly that advance
/// on it, with the session's bar and policy.
pub open spec fn served<const N: usize, A: Arrow<N>, B: Bound>(session: Session<B>, n: usize, r: Result<Frame, ProgressError>) -> bool {
    exists|before: ProgressBarHolder<N, A, B>, after: ProgressBarHolder<N, A, B>|
        before.wf() && session.inv(before) && #[trigger] before.incremented(n, r, after)
}

impl<Iter, const N: usize, A: Arrow<N>, B: Bound> Progress<Iter, N, A, B> {
    /// Parts the source from the progress state and puts the state behind
    /// a lock, ready to be shared.
    pub fn get_arc_iter(self) -> (r: (Iter, Shared<N, A, B>))
        ensures
            r.0 == self.iter(),
            r.1.pred() == (Session {
                bar: self.holder().bar(),
                policy: self.holder().policy(),
                started: self.holder().started(),
            }),
    {
        let (iter, holder) = self.get_iter();
        let ghost session = Session {
            bar: holder.bar(),
            policy: holder.policy(),
            started: holder.started(),
        };
        (iter, Arc::new(RwLock::new(holder, Ghost(session))))
    }
}

/// A shared progress state from which handles are made.
#[must_use]
pub struct Callback<const N: usize, A: Arrow<N>, B: Bound> {
    progress: Shared<N, A, B>,
}

impl<const N: usize, A: Arrow<N>, B: Bound> Callback<N, A, B> {
    /// The state that the handles will advance.
    pub closed spec fn target(&self) -> Shared<N, A, B> {
        self.progress
    }

    /// One more owner of `holder`, from which handles can be made.
    pub fn new(holder: &Shared<N, A, B>) -> (r: Self)
        ensures
            r.target() == *holder,
    {
        Self { progress: share(holder) }
    }

    /// One one-shot handle per layer: the handle at index `k` advances
    /// layer `k`.
    pub fn get_once_calls(self) -> (r: [Once<N, A, B>; N])
        ensures
            forall|k: int| 0 <= k < N ==> (#[trigger] r@[k]).layer() == k && r@[k].target() == self.target(),
    {
        let mut handles: Vec<Once<N, A, B>> = Vec::new();
        let mut i: usize = 0;
        while i < N
            invariant
                i <= N,
                handles.len() == i,
                forall|k: int| 0 <= k < i ==> (#[trigger] handles@[k]).layer() == k && handles@[k].target() == self.target(),
            decreases N - i,
        {
            handles.push(Once { progress: share(&self.progress), i });
            i += 1;
        }
        into_array(handles)
    }

    /// The repeatable handle, with its cursor on the outermost layer.
    pub fn get_mut_call(self) -> (r: Mut<N, A, B>)
        ensures
            r.cursor() == 0,
            r.target() == self.target(),
    {
        Mut { progress: self.progress, i: 0 }
    }
}

/// A handle that advances one fixed layer, once.
#[must_use]
pub struct Once<const N: usize, A: Arrow<N>, B: Bound> {
    progress: Shared<N, A, B>,
    i: usize,
}

impl<const N: usize, A: Arrow<N>, B: Bound> Once<N, A, B> {
    /// The layer that this handle advances.
    pub closed spec fn layer(&self) -> usize {
        self.i
    }

    /// The state that this handle advances.
    pub closed spec fn target(&self) -> Shared<N, A, B> {
        self.progress
    }

    /// One handle per layer of `holder`.
    pub fn new(holder: &Shared<N, A, B>) -> (r: [Self; N])
        ensures
            forall|k: int| 0 <= k < N ==> (#[trigger] r@[k]).layer() == k && r@[k].target() == *holder,
    {
        Callback::new(holder).get_once_calls()
    }

    /// What a call of this handle can return: the answer of the session
    /// to one advance of the handle's layer.
    pub open spec fn answers(&self, r: Result<Frame, ProgressError>) -> bool {
        &&& served::<N, A, B>(self.target().pred(), self.layer(), r)
        &&& self.layer() >= N <==> r matches Err(ProgressError::OutOfRangeLayer)
    }

    /// The handle as a closure that makes the call.
    pub fn as_fn(self) -> (f: impl FnOnce() -> Result<Frame, ProgressError>)
        ensures
            f.requires(()),
            forall|out: Result<Frame, ProgressError>| #[trigger] f.ensures((), out) ==> self.answers(out),
    {
        move || -> (r: Result<Frame, ProgressError>)
            ensures
                self.answers(r),
            { self.call() }
    }

    /// Takes the lock, advances the layer, releases the lock. The handle
    /// is used up.
    pub fn call(self) -> (r: Result<Frame, ProgressError>)
        ensures
            self.answers(r),
    {
        locked_inc(&self.progress, self.i)
    }
}

/// A handle that advances the layers one after the other, outermost
/// first: each call advances the layer under its cursor and moves the
/// cursor on.
#[must_use]
pub struct Mut<const N: usize, A: Arrow<N>, B: Bound> {
    progress: Shared<N, A, B>,
    i: usize,
}

impl<const N: usize, A: Arrow<N>, B: Bound> Mut<N, A, B> {
    /// The layer that the next call advances.
    pub closed spec fn cursor(&self) -> usize {
        self.i
    }

    /// The state that this handle advances.
    pub closed spec fn target(&self) -> Shared<N, A, B> {
        self.progress
    }

    /// A handle on `holder` with its cursor on the outermost layer.
    pub fn new(holder: &Shared<N, A, B>) -> (r: Self)
        ensures
            r.cursor() == 0,
            r.target() == *holder,
    {
        Callback::new(holder).get_mut_call()
    }

    /// Takes the lock, advances the layer under the cursor, releases the
    /// lock, and moves the cursor on. Once the cursor has passed the last
    /// layer the call is refused; a refused call leaves the cursor.
    pub fn call(&mut self) -> (r: Result<Frame, ProgressError>)
        ensures
            final(self).target() == old(self).target(),
            old(self).cursor() >= N <==> r matches Err(ProgressError::LayerBudgetExhausted),
            old(self).cursor() < N ==> served::<N, A, B>(old(self).target().pred(), old(self).cursor(), r),
            final(self).cursor() == (if r is Ok {
                old(self).cursor() + 1
            } else {
                old(self).cursor() as int
            }),
    {
        if self.i >= N {
            return Err(ProgressError::LayerBudgetExhausted);
        }
        let r = locked_inc(&self.progress, self.i);
        if r.is_ok() {
            self.i = self.i + 1;
        }
        r
    }
}

impl<Iter, const N: usize, A: Arrow<N>, B: Bound> From<Progress<Iter, N, A, B>> for (Iter, Shared<N, A, B>) {
    fn from(val: Progress<Iter, N, A, B>) -> (r: Self) {
        val.get_arc_iter()
    }
}

/// The lock is made anew by each conversion, so no function of the input
/// gives the result.
impl<Iter, const N: usize, A: Arrow<N>, B: Bound> vstd::std_specs::convert::FromSpecImpl<Progress<Iter, N, A, B>> for (Iter, Shared<N, A, B>) {
    open spec fn obeys_from_spec() -> bool {
        false
    }

    open spec fn from_spec(val: Progress<Iter, N, A, B>) -> Self {
        arbitrary()
    }
}

} // verus!
