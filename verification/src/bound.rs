//! Bound policies: when a layer is done, and what the status line shows.
//! Every width and length here counts characters.

use crate::arrow::{as_nats, ordered_fractions, Arrow, Fractions};
use crate::bar::{Bar, BarView};
use crate::counter::{valid, within};
use crate::error::ProgressError;
use crate::text::{
    count_digits, decimal, digit_count, join, joined, push_decimal, push_zero_padded, views,
    zero_padded,
};
use vstd::prelude::*;

verus! {

/// A bound policy: the limit of every layer and the status line of a
/// holder under that limit.
pub trait Bound: Sized {
    /// The count at which a layer is done; `None` where there is none.
    spec fn limit(&self) -> Option<nat>;

    /// The status line for a bar and a counter with the trailing text
    /// `post_msg`, or why there is none.
    spec fn shown(&self, bar: BarView, counter: Seq<nat>, post_msg: Seq<char>) -> Result<
        Seq<char>,
        ProgressError,
    >;

    /// A policy refuses a line for reasons of rendering only.
    proof fn shown_refusal(&self, bar: BarView, counter: Seq<nat>, post_msg: Seq<char>)
        ensures
            self.shown(bar, counter, post_msg) matches Err(e) ==> e.of_rendering(),
    ;

    /// Whether a layer that stands at `n` may still advance.
    fn is_in_bound(&self, n: usize) -> (b: bool)
        ensures
            b == within(self.limit(), n as nat),
    ;

    /// Renders the status line of `bar` for a counter that this policy
    /// admits, with `post_msg` after the counts.
    fn display<const N: usize, A: Arrow<N>>(
        &self,
        bar: &Bar<N, A>,
        counter: &[usize; N],
        post_msg: &str,
    ) -> (r: Result<String, ProgressError>)
        requires
            valid(as_nats(counter@), self.limit()),
        ensures
            match r {
                Ok(line) => self.shown(bar@, as_nats(counter@), post_msg@) == Ok::<
                    Seq<char>,
                    ProgressError,
                >(line@),
                Err(e) => self.shown(bar@, as_nats(counter@), post_msg@) == Err::<
                    Seq<char>,
                    ProgressError,
                >(e),
            },
    ;
}

/// No limit, and no rendering: every layer is always in bound, and asking
/// for the status line is refused.
#[derive(Debug)]
pub struct Unbounded;

impl Bound for Unbounded {
    open spec fn limit(&self) -> Option<nat> {
        None
    }

    open spec fn shown(&self, bar: BarView, counter: Seq<nat>, post_msg: Seq<char>) -> Result<
        Seq<char>,
        ProgressError,
    > {
        Err(ProgressError::NoRendering)
    }

    proof fn shown_refusal(&self, bar: BarView, counter: Seq<nat>, post_msg: Seq<char>) {
    }

    fn is_in_bound(&self, _n: usize) -> (b: bool) {
        true
    }

    fn display<const N: usize, A: Arrow<N>>(
        &self,
        _bar: &Bar<N, A>,
        _counter: &[usize; N],
        _post_msg: &str,
    ) -> (r: Result<String, ProgressError>) {
        Err(ProgressError::NoRendering)
    }
}

/// The counts with the innermost layer first.
pub open spec fn innermost_first(counter: Seq<nat>) -> Seq<nat> {
    Seq::new(counter.len(), |k: int| counter[counter.len() - 1 - k])
}

/// The first `k` counts, innermost first, each zero-padded to `width`.
pub open spec fn padded_counts(counter: Seq<nat>, width: nat, k: nat) -> Seq<Seq<char>> {
    Seq::new(k, |j: int| zero_padded(counter[counter.len() - 1 - j], width))
}

/// All counts, innermost first, zero-padded to `width` and joined by `+`.
pub open spec fn counts_text(counter: Seq<nat>, width: nat) -> Seq<char> {
    joined(padded_counts(counter, width, counter.len()), seq!['+'])
}

/// The width left for the bar. Under a cap on the line it is the cap less
/// the prefix, the counts, twice the digits of the size and the reserved
/// trailing width; without a cap it is the size plus the arrow's padding.
pub open spec fn bar_width(
    size: nat,
    reserved: nat,
    max_len: Option<usize>,
    pre_len: nat,
    counts_len: nat,
    padding: nat,
) -> int {
    match max_len {
        Some(max) => max - (pre_len + counts_len + 2 * digit_count(size) + reserved),
        None => (size + padding) as int,
    }
}

/// The status line of a bounded session: carriage return, prefix, the
/// arrow for the fractions `count / size` (innermost first; zero where the
/// size is zero), the counts, `/`, the size, the trailing text.
pub open spec fn bounded_line(
    size: nat,
    reserved: nat,
    max_len: Option<usize>,
    bar: BarView,
    counter: Seq<nat>,
    post_msg: Seq<char>,
) -> Result<Seq<char>, ProgressError> {
    let counts = counts_text(counter, digit_count(size));
    let width = bar_width(size, reserved, max_len, bar.pre_msg.len(), counts.len(), bar.padding);
    let whole = if size == 0 {
        1nat
    } else {
        size
    };
    if post_msg.len() > reserved {
        Err(ProgressError::PostMessageTooLong)
    } else if width < 0 || width > usize::MAX {
        Err(ProgressError::BarDoesNotFit)
    } else {
        match (bar.draw)(innermost_first(counter), whole, width as nat) {
            None => Err(ProgressError::BarDoesNotFit),
            Some(arrow) => Ok(
                seq!['\r'] + bar.pre_msg + arrow + counts + seq!['/'] + decimal(size)
                    + post_msg,
            ),
        }
    }
}

/// A known total per layer, a width reserved for trailing text, and an
/// optional cap on the width of the whole line.
#[derive(Debug)]
pub struct Bounded {
    pub(crate) size: usize,
    pub(crate) post_msg_len: usize,
    pub(crate) max_len: Option<usize>,
}

impl Bounded {
    /// The total of every layer.
    pub closed spec fn size(&self) -> nat {
        self.size as nat
    }

    /// The width reserved for trailing text.
    pub closed spec fn reserved(&self) -> nat {
        self.post_msg_len as nat
    }

    /// The cap on the line's width, if any.
    pub closed spec fn cap(&self) -> Option<usize> {
        self.max_len
    }

    /// A bound of `size` per layer that reserves `post_msg_len` columns
    /// for trailing text and caps the line at `max_len`, if given.
    pub fn new(size: usize, post_msg_len: usize, max_len: Option<usize>) -> (r: Self)
        ensures
            r.size() == size,
            r.reserved() == post_msg_len,
            r.cap() == max_len,
    {
        Self { size, post_msg_len, max_len }
    }

    /// Size and reserved width are machine numbers: neither is above the
    /// largest `usize`.
    pub proof fn lemma_fits_usize(&self)
        ensures
            self.size() <= usize::MAX,
            self.reserved() <= usize::MAX,
    {
    }

    /// The cap on the line's width, if any.
    pub fn max_len(&self) -> (r: Option<usize>)
        ensures
            r == self.cap(),
    {
        self.max_len
    }

    /// The cap on the line's width, to read or to set. Size and reserved
    /// width stay as they are.
    pub fn mut_max_len(&mut self) -> (r: &mut Option<usize>)
        ensures
            *r == old(self).cap(),
            final(self).cap() == *final(r),
            final(self).size() == old(self).size(),
            final(self).reserved() == old(self).reserved(),
        no_unwind
    {
        &mut self.max_len
    }

    /// The width for the bar, where there is one between zero and the
    /// largest `usize`.
    fn bar_len(&self, pre_len: usize, counts_len: usize, size_width: usize, padding: usize) -> (r:
        Option<usize>)
        requires
            size_width == digit_count(self.size()),
        ensures
            r == (if 0 <= bar_width(
                self.size(),
                self.reserved(),
                self.cap(),
                pre_len as nat,
                counts_len as nat,
                padding as nat,
            ) <= usize::MAX {
                Some(
                    bar_width(
                        self.size(),
                        self.reserved(),
                        self.cap(),
                        pre_len as nat,
                        counts_len as nat,
                        padding as nat,
                    ) as usize,
                )
            } else {
                None
            }),
    {
        proof {
            assert(crate::text::pow10(20) == 100000000000000000000) by {
                reveal_with_fuel(crate::text::pow10, 21);
            }
            crate::text::lemma_digit_count_bound(self.size(), 20);
        }
        match self.max_len {
            None => self.size.checked_add(padding),
            Some(max) => {
                let around = match pre_len.checked_add(counts_len) {
                    Some(sum) => sum,
                    None => { return None; },
                };
                let around = match around.checked_add(2 * size_width) {
                    Some(sum) => sum,
                    None => { return None; },
                };
                let around = match around.checked_add(self.post_msg_len) {
                    Some(sum) => sum,
                    None => { return None; },
                };
                if around <= max {
                    Some(max - around)
                } else {
                    None
                }
            },
        }
    }
}

impl Bound for Bounded {
    open spec fn limit(&self) -> Option<nat> {
        Some(self.size())
    }

    open spec fn shown(&self, bar: BarView, counter: Seq<nat>, post_msg: Seq<char>) -> Result<
        Seq<char>,
        ProgressError,
    > {
        bounded_line(self.size(), self.reserved(), self.cap(), bar, counter, post_msg)
    }

    proof fn shown_refusal(&self, bar: BarView, counter: Seq<nat>, post_msg: Seq<char>) {
    }

    fn is_in_bound(&self, n: usize) -> (b: bool) {
        self.size > n
    }

    fn display<const N: usize, A: Arrow<N>>(
        &self,
        bar: &Bar<N, A>,
        counter: &[usize; N],
        post_msg: &str,
    ) -> (r: Result<String, ProgressError>) {
        let ghost counts = as_nats(counter@);
        if post_msg.unicode_len() > self.post_msg_len {
            return Err(ProgressError::PostMessageTooLong);
        }
        let whole = if self.size == 0 {
            1
        } else {
            self.size
        };
        let size_width = count_digits(self.size);
        let mut parts = [0usize;N];
        let mut texts: Vec<String> = Vec::new();
        let mut k: usize = 0;
        while k < N
            invariant
                k <= N,
                counts == as_nats(counter@),
                counts.len() == N,
                forall|j: int| 0 <= j < k ==> #[trigger] parts@[j] == counter@[N - 1 - j],
                views(texts@) == padded_counts(counts, size_width as nat, k as nat),
            decreases N - k,
        {
            let count = counter[N - 1 - k];
            assert(count as nat == counts[N - 1 - k]);
            parts[k] = count;
            let mut text = String::new();
            push_zero_padded(&mut text, count, size_width);
            assert(text@ =~= zero_padded(count as nat, size_width as nat));
            let ghost before = texts@;
            let ghost padded = text@;
            texts.push(text);
            k += 1;
            assert(views(texts@) =~= padded_counts(counts, size_width as nat, k as nat)) by {
                assert(views(texts@) =~= views(before).push(padded));
            }
        }
        assert(as_nats(parts@) =~= innermost_first(counts));
        assert(ordered_fractions(as_nats(parts@), whole as nat)) by {
            let rev = innermost_first(counts);
            assert forall|i: int| 0 <= i < rev.len() implies #[trigger] rev[i] <= whole by {
                let v = counts[N - 1 - i];
                assert(v == 0 || within(self.limit(), (v - 1) as nat));
            }
            assert forall|i: int, j: int| 0 <= i <= j < rev.len() implies #[trigger] rev[i]
                <= #[trigger] rev[j] by {
                assert(counts[N - 1 - j] >= counts[N - 1 - i]);
            }
        }
        let fractions = match Fractions::new(parts, whole) {
            Some(f) => f,
            None => { return Err(ProgressError::BarDoesNotFit); },
        };
        proof {
            reveal_strlit("+");
            assert("+"@ =~= seq!['+']);
        }
        let current_fmt = join(&texts, "+");
        assert(current_fmt@ == counts_text(counts, size_width as nat));
        let bar_len = match self.bar_len(
            bar.pre_msg.as_str().unicode_len(),
            current_fmt.as_str().unicode_len(),
            size_width,
            bar.arrow.padding_needed(),
        ) {
            Some(width) => width,
            None => { return Err(ProgressError::BarDoesNotFit); },
        };
        if !bar.arrow.accepts(bar_len) {
            return Err(ProgressError::BarDoesNotFit);
        }
        let arrow = bar.arrow.build(fractions, bar_len);
        let mut line = String::new();
        line.push('\r');
        line.append(bar.pre_msg.as_str());
        line.append(arrow.as_str());
        line.append(current_fmt.as_str());
        line.push('/');
        push_decimal(&mut line, self.size);
        line.append(post_msg);
        assert(line@ =~= seq!['\r'] + bar.pre_msg@ + arrow@ + current_fmt@
            + seq!['/'] + decimal(self.size as nat) + post_msg@);
        Ok(line)
    }
}

} // verus!
