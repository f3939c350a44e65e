//! The progress state: a bar's configuration, the layered counter under a
//! bound policy, and the advance that moves it and renders the line.

use crate::arrow::{as_nats, Arrow};
use crate::bound::{Bound, Bounded, Unbounded};
use crate::clock::{clock_text, format_clock, lemma_clock_width, split_duration, CLOCK_WIDTH};
use crate::counter::{
    accepted, advanced, bumped, completed, lemma_advanced_valid, lemma_bumped_is_advanced, settled,
    step, valid, within, zeros,
};
use crate::error::ProgressError;
use std::time::Instant;
use vstd::std_specs::iter::IteratorSpec;
use vstd::prelude::*;

verus! {

/// What a bar shows: the text before the arrow, whether the elapsed time
/// follows the counts, and the arrow that draws it.
#[must_use]
pub struct Bar<const N: usize, A> {
    pub pre_msg: String,
    pub is_timed: bool,
    pub arrow: A,
}

/// An arrow as a function: the bar for given fractions at a given width,
/// or `None` where the arrow does not fit the width.
pub open spec fn drawing<const N: usize, A: Arrow<N>>(arrow: A) -> spec_fn(Seq<nat>, nat, nat) -> Option<
    Seq<char>,
> {
    |parts: Seq<nat>, whole: nat, bar_length: nat|
        if arrow.fits(bar_length) {
            Some(arrow.rendered(parts, whole, bar_length))
        } else {
            None
        }
}

/// A bar as the status line sees it.
pub ghost struct BarView {
    pub pre_msg: Seq<char>,
    pub is_timed: bool,
    pub padding: nat,
    pub draw: spec_fn(Seq<nat>, nat, nat) -> Option<Seq<char>>,
}

impl<const N: usize, A: Arrow<N>> View for Bar<N, A> {
    type V = BarView;

    open spec fn view(&self) -> BarView {
        BarView {
            pre_msg: self.pre_msg@,
            is_timed: self.is_timed,
            padding: self.arrow.padding(),
            draw: drawing::<N, A>(self.arrow),
        }
    }
}

impl<const N: usize, A> Bar<N, A> {
    /// A bar that shows `pre_msg` before the arrow, and the elapsed time
    /// after the counts if `is_timed`.
    pub fn new(pre_msg: String, is_timed: bool, arrow: A) -> (bar: Self)
        ensures
            bar.pre_msg == pre_msg,
            bar.is_timed == is_timed,
            bar.arrow == arrow,
    {
        Self { pre_msg, is_timed, arrow }
    }
}

/// One rendered status line, and whether it is the last of the session.
pub struct Frame {
    /// The line, starting with a carriage return so that it overwrites
    /// the line before it.
    pub line: String,
    /// The innermost layer has reached its bound: a newline is due after
    /// this line.
    pub last: bool,
}

/// A bar, its counter of `N` layers (outermost first), the start of the
/// session where it is timed, and the bound policy.
pub struct ProgressBarHolder<const N: usize, A: Arrow<N>, B: Bound> {
    pub(crate) bar: Bar<N, A>,
    pub(crate) i: [usize; N],
    pub(crate) start: Option<Instant>,
    pub(crate) bound: B,
}

impl<const N: usize, A: Arrow<N>, B: Bound> ProgressBarHolder<N, A, B> {
    /// The counts, outermost layer first.
    pub closed spec fn counter(&self) -> Seq<nat> {
        as_nats(self.i@)
    }

    /// The bound policy.
    pub closed spec fn policy(&self) -> B {
        self.bound
    }

    /// The bar.
    pub closed spec fn bar(&self) -> BarView {
        self.bar@
    }

    /// The start of the session, where it is timed.
    pub closed spec fn started(&self) -> Option<Instant> {
        self.start
    }

    /// Whether the session is timed.
    pub open spec fn timed(&self) -> bool {
        self.started() is Some
    }

    /// The counter is nested and no layer is past the bound.
    #[verifier::type_invariant]
    pub open spec fn wf(self) -> bool {
        &&& self.counter().len() == N
        &&& valid(self.counter(), self.policy().limit())
    }

    /// What advancing layer `n` with the trailing text `post_msg` comes
    /// to: the new counter, the line and whether it is the last, or the
    /// refusal. The checks come in this order: the layer exists; it is
    /// within its bound (and below the largest `usize`); the line of the
    /// advanced counter can be rendered.
    pub open spec fn outcome(&self, n: usize, post_msg: Seq<char>) -> Result<
        (Seq<nat>, Seq<char>, bool),
        ProgressError,
    > {
        let c = self.counter();
        if n >= N {
            Err(ProgressError::OutOfRangeLayer)
        } else if !within(self.policy().limit(), c[n as int]) || c[n as int] >= usize::MAX {
            Err(ProgressError::BoundExceeded)
        } else {
            let next = advanced(c, n as int);
            match self.policy().shown(self.bar(), next, post_msg) {
                Err(e) => Err(e),
                Ok(line) => Ok((next, line, completed(next, self.policy().limit()))),
            }
        }
    }

    /// The counts, outermost layer first.
    pub fn counts(&self) -> (c: [usize; N])
        ensures
            as_nats(c@) == self.counter(),
    {
        self.i
    }

    /// Increments layer `n` and carries outwards: while the layer outside
    /// is behind, it is incremented too.
    pub fn __inc(i: &mut [usize; N], n: usize)
        requires
            n < N,
            old(i)@[n as int] < usize::MAX,
        ensures
            as_nats(final(i)@) == bumped(as_nats(old(i)@), n as int),
    {
        i[n] = i[n] + 1;
        let mut k = n;
        assert(as_nats(i@) =~= as_nats(old(i)@).update(n as int, as_nats(old(i)@)[n as int] + 1));
        while k > 0 && i[k - 1] < i[k]
            invariant
                k <= n < N,
                settled(as_nats(i@), k as int) == bumped(as_nats(old(i)@), n as int),
            decreases k,
        {
            let ghost before = as_nats(i@);
            i[k - 1] = i[k - 1] + 1;
            assert(as_nats(i@) =~= before.update(k - 1, before[k - 1] + 1));
            k = k - 1;
        }
    }

    /// `self` answered the advance of layer `n` under the trailing text
    /// `post_msg` with `r` and went on as `after`: bar, policy and the
    /// start of the session stay; an accepted call moves the counter and returns the line, a
    /// refused one returns the reason and leaves the counter.
    pub open spec fn answers(&self, n: usize, post_msg: Seq<char>, r: Result<Frame, ProgressError>, after: Self) -> bool {
        &&& after.bar() == self.bar()
        &&& after.policy() == self.policy()
        &&& after.started() == self.started()
        &&& after.wf()
        &&& match r {
            Ok(frame) => self.outcome(n, post_msg) == Ok::<
                (Seq<nat>, Seq<char>, bool),
                ProgressError,
            >((after.counter(), frame.line@, frame.last)),
            Err(e) => self.outcome(n, post_msg) == Err::<
                (Seq<nat>, Seq<char>, bool),
                ProgressError,
            >(e) && after.counter() == self.counter(),
        }
    }

    /// When an advance is refused for the counter's sake: the layer is out
    /// of range exactly when `n` is not below `N`, and the bound is
    /// exceeded exactly when the layer exists and has no room left.
    pub proof fn lemma_refusals(&self, n: usize, post_msg: Seq<char>)
        ensures
            n >= N <==> self.outcome(n, post_msg) matches Err(ProgressError::OutOfRangeLayer),
            n < N && !(within(self.policy().limit(), self.counter()[n as int])
                && self.counter()[n as int] < usize::MAX) <==> self.outcome(n, post_msg) matches Err(
                ProgressError::BoundExceeded,
            ),
            !(self.outcome(n, post_msg) matches Err(ProgressError::LayerBudgetExhausted)),
    {
        if n < N {
            self.policy().shown_refusal(self.bar(), advanced(self.counter(), n as int), post_msg);
        }
    }

    /// A trailing text that the clock can give: none without a timer, else
    /// a space and `MM:SS`.
    pub open spec fn stamp(&self, post_msg: Seq<char>) -> bool {
        if self.timed() {
            exists|minutes: nat, seconds: nat|
                minutes < 60 && seconds < 60 && post_msg == #[trigger] clock_text(minutes, seconds)
        } else {
            post_msg == Seq::<char>::empty()
        }
    }

    /// `self` answered the advance of layer `n` with `r` and went on as
    /// `after`, under some trailing text that the clock can give.
    pub open spec fn incremented(&self, n: usize, r: Result<Frame, ProgressError>, after: Self) -> bool {
        exists|post_msg: Seq<char>| self.stamp(post_msg) && #[trigger] self.answers(n, post_msg, r, after)
    }

    /// An accepted advance is one step of the counter, and its line is the
    /// last exactly when the step completes the counter.
    pub proof fn lemma_outcome_steps(&self, n: usize, post_msg: Seq<char>)
        ensures
            self.outcome(n, post_msg) matches Ok(moved) ==> {
                &&& accepted(self.counter(), self.policy().limit(), n as int)
                &&& moved.0 == step(self.counter(), self.policy().limit(), n as int)
                &&& moved.2 == completed(moved.0, self.policy().limit())
            },
            self.wf() ==> (self.outcome(n, post_msg) matches Ok(moved) ==> valid(moved.0, self.policy().limit())),
    {
        if self.wf() && self.outcome(n, post_msg) is Ok {
            lemma_advanced_valid(self.counter(), self.policy().limit(), n as int);
        }
    }

    /// Advances layer `n` and renders the line, with the time since the
    /// start after the counts if the session is timed.
    pub fn inc(&mut self, n: usize) -> (r: Result<Frame, ProgressError>)
        ensures
            old(self).incremented(n, r, *final(self)),
    {
        let fmt_elapsed = match self.start {
            None => String::new(),
            Some(start) => {
                let elapsed = Instant::now().duration_since(start);
                let (_, minutes, seconds) = split_duration(&elapsed);
                format_clock(minutes, seconds)
            },
        };
        let r = self.advance(n, fmt_elapsed.as_str());
        assert(old(self).stamp(fmt_elapsed@));
        assert(old(self).answers(n, fmt_elapsed@, r, *self));
        r
    }

    /// Advances layer `n` and renders the line with `post_msg` after the
    /// counts. A refused call leaves the state as it was.
    pub fn advance(&mut self, n: usize, post_msg: &str) -> (r: Result<Frame, ProgressError>)
        ensures
            old(self).answers(n, post_msg@, r, *final(self)),
    {
        proof {
            use_type_invariant(&*self);
        }
        if n >= N {
            return Err(ProgressError::OutOfRangeLayer);
        }
        if !self.bound.is_in_bound(self.i[n]) || self.i[n] == usize::MAX {
            return Err(ProgressError::BoundExceeded);
        }
        let mut next = self.i;
        proof {
            let c = as_nats(self.i@);
            lemma_bumped_is_advanced(c, n as int);
            lemma_advanced_valid(c, self.bound.limit(), n as int);
        }
        Self::__inc(&mut next, n);
        match self.bound.display(&self.bar, &next, post_msg) {
            Ok(line) => {
                self.i = next;
                let last = !self.bound.is_in_bound(self.i[N - 1]);
                Ok(Frame { line, last })
            },
            Err(e) => Err(e),
        }
    }
}

impl<const N: usize, A: Arrow<N>> ProgressBarHolder<N, A, Bounded> {
    /// Below the size there is room: a layer that exists and stands below
    /// the size is advanced, and the answer is the line of the advanced
    /// counter or the reason why that line cannot be rendered.
    pub proof fn lemma_accepted_below_size(&self, n: usize, post_msg: Seq<char>)
        requires
            n < N,
            self.counter()[n as int] < self.policy().size(),
        ensures
            self.counter()[n as int] < usize::MAX,
            self.outcome(n, post_msg) == (match self.policy().shown(
                self.bar(),
                advanced(self.counter(), n as int),
                post_msg,
            ) {
                Err(e) => Err::<(Seq<nat>, Seq<char>, bool), ProgressError>(e),
                Ok(line) => Ok(
                    (
                        advanced(self.counter(), n as int),
                        line,
                        completed(advanced(self.counter(), n as int), self.policy().limit()),
                    ),
                ),
            }),
    {
        self.policy().lemma_fits_usize();
    }

    /// The clock always fits: where a timed session reserves the width of
    /// the clock, no text that the clock gives is refused as too long.
    pub proof fn lemma_clock_fits(&self, n: usize, post_msg: Seq<char>)
        requires
            self.timed() ==> self.policy().reserved() >= CLOCK_WIDTH,
            self.stamp(post_msg),
        ensures
            !(self.outcome(n, post_msg) matches Err(ProgressError::PostMessageTooLong)),
    {
        if self.timed() {
            let (minutes, seconds) = choose|minutes: nat, seconds: nat|
                minutes < 60 && seconds < 60 && post_msg == #[trigger] clock_text(minutes, seconds);
            lemma_clock_width(minutes, seconds);
        }
    }
}

/// A source of items together with the progress state of the loop over
/// them.
pub struct Progress<Iter, const N: usize, A: Arrow<N>, B: Bound> {
    iter: Iter,
    holder: ProgressBarHolder<N, A, B>,
}

impl<Iter, const N: usize, A: Arrow<N>, B: Bound> Progress<Iter, N, A, B> {
    /// The source of items.
    pub closed spec fn iter(&self) -> Iter {
        self.iter
    }

    /// The progress state.
    pub closed spec fn holder(&self) -> ProgressBarHolder<N, A, B> {
        self.holder
    }

    /// Parts the source from the progress state.
    pub fn get_iter(self) -> (r: (Iter, ProgressBarHolder<N, A, B>))
        ensures
            r.0 == self.iter(),
            r.1 == self.holder(),
    {
        (self.iter, self.holder)
    }
}

impl<Iter, const N: usize, A: Arrow<N>> Progress<Iter, N, A, Unbounded> {
    /// Progress without a bound, untimed, with the counter at zero.
    pub fn new_unbound(iter: Iter, bar: Bar<N, A>) -> (p: Self)
        ensures
            p.iter() == iter,
            p.holder().bar() == bar@,
            p.holder().counter() == zeros(N as nat),
            p.holder().started() is None,
    {
        let i = [0usize;N];
        assert(as_nats(i@) =~= zeros(N as nat));
        Self { iter, holder: ProgressBarHolder { bar, i, start: None, bound: Unbounded {  } } }
    }
}

impl<Iter, const N: usize, A: Arrow<N>> Progress<Iter, N, A, Bounded> {
    /// Progress towards `size` per layer, with the counter at zero and no
    /// cap on the line. `post_msg_len` is the width reserved for trailing
    /// text; a timed bar reserves the width of the clock on top of it and
    /// starts its timer now.
    pub fn new_external_bound(iter: Iter, bar: Bar<N, A>, post_msg_len: usize, size: usize) -> (p:
        Self)
        requires
            bar.is_timed ==> post_msg_len + CLOCK_WIDTH <= usize::MAX,
        ensures
            p.iter() == iter,
            p.holder().bar() == bar@,
            p.holder().counter() == zeros(N as nat),
            p.holder().timed() == bar.is_timed,
            p.holder().policy().size() == size,
            p.holder().policy().cap() is None,
            p.holder().policy().reserved() == post_msg_len + (if bar.is_timed {
                CLOCK_WIDTH as nat
            } else {
                0nat
            }),
    {
        let post_msg_len = if bar.is_timed {
            post_msg_len + CLOCK_WIDTH
        } else {
            post_msg_len
        };
        let start = if bar.is_timed {
            Some(Instant::now())
        } else {
            None
        };
        let i = [0usize;N];
        assert(as_nats(i@) =~= zeros(N as nat));
        Self {
            iter,
            holder: ProgressBarHolder { bar, i, start, bound: Bounded::new(size, post_msg_len, None) },
        }
    }

    /// The cap on the width of the line, if any.
    pub fn max_len(&self) -> (r: Option<usize>)
        ensures
            r == self.holder().policy().cap(),
    {
        self.holder.bound.max_len()
    }

    /// The cap on the width of the line, to read or to set.
    pub fn mut_max_len(&mut self) -> (r: &mut Option<usize>)
        ensures
            *r == old(self).holder().policy().cap(),
            final(self).holder().policy().cap() == *final(r),
            final(self).same_but_cap(*old(self)),
    {
        proof {
            use_type_invariant(&self.holder);
        }
        self.holder.bound.mut_max_len()
    }

    /// Lifts the cap on the width of the line.
    pub fn unset_max_len(&mut self)
        ensures
            final(self).same_but_cap(*old(self)),
            final(self).holder().policy().cap() is None,
    {
        *self.mut_max_len() = None;
    }

    /// Caps the width of the line at `new_max_len`.
    pub fn set_max_len(&mut self, new_max_len: usize)
        ensures
            final(self).same_but_cap(*old(self)),
            final(self).holder().policy().cap() == Some(new_max_len),
    {
        *self.mut_max_len() = Some(new_max_len);
    }

    /// `self` is `other` except, at most, for the cap on the line.
    pub open spec fn same_but_cap(&self, other: Self) -> bool {
        &&& self.iter() == other.iter()
        &&& self.holder().bar() == other.holder().bar()
        &&& self.holder().counter() == other.holder().counter()
        &&& self.holder().started() == other.holder().started()
        &&& self.holder().policy().size() == other.holder().policy().size()
        &&& self.holder().policy().reserved() == other.holder().policy().reserved()
    }
}

impl<Iter: Iterator, A: Arrow<1>, B: Bound> Progress<Iter, 1, A, B> {
    /// Pulls the next item and, if there is one, advances the single
    /// layer. `Ok(None)` is the end of the source, with the state as it
    /// was; an item comes with its line; a refused advance is the error,
    /// and the item is dropped.
    pub fn next(&mut self) -> (r: Result<Option<(Iter::Item, Frame)>, ProgressError>)
        ensures
            match r {
                Ok(pulled) => match pulled {
                    None => final(self).holder() == old(self).holder(),
                    Some(pair) => old(self).holder().incremented(0, Ok(pair.1), final(self).holder()),
                },
                Err(e) => old(self).holder().incremented(0, Err(e), final(self).holder()),
            },
            old(self).iter().obeys_prophetic_iter_laws() ==> {
                let items = old(self).iter().remaining();
                &&& items.len() == 0 <==> r == Ok::<Option<(Iter::Item, Frame)>, ProgressError>(None)
                &&& items.len() > 0 ==> final(self).iter().remaining() == items.drop_first()
                &&& r matches Ok(pulled) ==> (pulled matches Some(pair) ==> pair.0 == items[0])
            },
    {
        match self.iter.next() {
            None => Ok(None),
            Some(item) => match self.holder.inc(0) {
                Ok(frame) => Ok(Some((item, frame))),
                Err(e) => Err(e),
            },
        }
    }
}

impl<Iter, const N: usize, A: Arrow<N>, B: Bound> From<Progress<Iter, N, A, B>> for (Iter, ProgressBarHolder<N, A, B>) {
    fn from(val: Progress<Iter, N, A, B>) -> (r: Self) {
        val.get_iter()
    }
}

impl<Iter, const N: usize, A: Arrow<N>, B: Bound> vstd::std_specs::convert::FromSpecImpl<Progress<Iter, N, A, B>> for (Iter, ProgressBarHolder<N, A, B>) {
    open spec fn obeys_from_spec() -> bool {
        true
    }

    open spec fn from_spec(val: Progress<Iter, N, A, B>) -> Self {
        (val.iter(), val.holder())
    }
}

} // verus!
