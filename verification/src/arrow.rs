//! Arrow renderers: from the completed fractions of each layer and a bar
//! width to the characters of the bar.
//!
//! Fractions are exact: each is a count out of a common whole, so a run
//! length is an integer quotient and no rounding error enters. Widths count
//! characters.

use vstd::prelude::*;

pub mod fancy;
pub mod simple;

pub use crate::arrow::fancy::Fancy;
pub use crate::arrow::simple::{Simple, UnicodeBar};

verus! {

/// The values of `s` as natural numbers.
pub open spec fn as_nats(s: Seq<usize>) -> Seq<nat> {
    s.map_values(|v: usize| v as nat)
}

/// Breakpoints `parts[k] / whole` that lie in `[0, 1]` and never decrease.
pub open spec fn ordered_fractions(parts: Seq<nat>, whole: nat) -> bool {
    &&& whole > 0
    &&& forall|i: int| 0 <= i < parts.len() ==> #[trigger] parts[i] <= whole
    &&& forall|i: int, j: int| 0 <= i <= j < parts.len() ==> #[trigger] parts[i] <= #[trigger] parts[j]
}

/// `N` fractions over one denominator: the k-th is `parts[k] / whole`.
#[derive(Clone, Copy, Debug)]
pub struct Fractions<const N: usize> {
    parts: [usize; N],
    whole: usize,
}

impl<const N: usize> Fractions<N> {
    /// The numerators, first breakpoint first.
    pub closed spec fn parts(&self) -> Seq<nat> {
        as_nats(self.parts@)
    }

    /// The common denominator.
    pub closed spec fn whole(&self) -> nat {
        self.whole as nat
    }

    /// The fractions lie in `[0, 1]` and are in non-decreasing order.
    pub open spec fn wf(&self) -> bool {
        &&& self.parts().len() == N
        &&& ordered_fractions(self.parts(), self.whole())
    }

    /// `parts[k] / whole` for each `k`, if these are ordered fractions.
    pub fn new(parts: [usize; N], whole: usize) -> (r: Option<Self>)
        ensures
            r is Some <==> ordered_fractions(as_nats(parts@), whole as nat),
            r matches Some(f) ==> f.wf() && f.parts() == as_nats(parts@) && f.whole() == whole,
    {
        if whole == 0 {
            return None;
        }
        let ghost nats = as_nats(parts@);
        let mut k: usize = 0;
        while k < N
            invariant
                k <= N,
                nats == as_nats(parts@),
                nats.len() == N,
                forall|i: int| 0 <= i < k ==> #[trigger] nats[i] <= whole,
                forall|i: int, j: int| 0 <= i <= j < k ==> #[trigger] nats[i] <= #[trigger] nats[j],
            decreases N - k,
        {
            if parts[k] > whole {
                assert(nats[k as int] > whole);
                return None;
            }
            if k > 0 && parts[k - 1] > parts[k] {
                assert(nats[k - 1] > nats[k as int]);
                return None;
            }
            k += 1;
        }
        Some(Fractions { parts, whole })
    }

    /// The numerator of the k-th fraction.
    pub fn at(&self, k: usize) -> (p: usize)
        requires
            k < N,
        ensures
            p == self.parts()[k as int],
    {
        self.parts[k]
    }

    /// The common denominator.
    pub fn total(&self) -> (w: usize)
        ensures
            w == self.whole(),
    {
        self.whole
    }
}

/// A renderer of the bar. `build` draws the fractions at a width that the
/// renderer `fits`; `padding_needed` is the width of its fixed frame.
pub trait Arrow<const N: usize> {
    /// The width taken by the frame around the bar's body.
    spec fn padding(&self) -> nat;

    /// Whether a bar of `bar_length` characters can be drawn.
    spec fn fits(&self, bar_length: nat) -> bool;

    /// The bar for the fractions `parts[k] / whole` at `bar_length`.
    spec fn rendered(&self, parts: Seq<nat>, whole: nat, bar_length: nat) -> Seq<char>;

    /// Draws the bar for `fractions` at a width that fits.
    fn build(&self, fractions: Fractions<N>, bar_length: usize) -> (s: String)
        requires
            fractions.wf(),
            self.fits(bar_length as nat),
        ensures
            s@ == self.rendered(fractions.parts(), fractions.whole(), bar_length as nat),
    ;

    /// The width of the frame: what the bar takes on top of one column
    /// per unit of work.
    fn padding_needed(&self) -> (p: usize)
        ensures
            p == self.padding(),
    ;

    /// Whether `build` can be asked for a bar of `bar_length`.
    fn accepts(&self, bar_length: usize) -> (b: bool)
        ensures
            b == self.fits(bar_length as nat),
    ;
}

} // verus!
