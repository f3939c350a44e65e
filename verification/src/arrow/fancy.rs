//! The `Fancy` arrow: one fraction drawn as a body between two edge
//! glyphs that close only at the true start and end of the work.

use crate::arrow::{Arrow, Fractions};
use crate::text::{push_repeated, repeated};
use vstd::prelude::*;

verus! {

/// `part / whole` of `width`, rounded to the nearest integer, halves up.
pub open spec fn rounded_share(part: nat, whole: nat, width: nat) -> nat {
    ((2 * part * width + whole) / (2 * whole)) as nat
}

/// The bar of a `Fancy` arrow. `empty` and `full` each hold a left edge, a
/// body glyph and a right edge. The left edge is full once anything is
/// drawn, the right edge only when the bar is complete.
pub open spec fn fancy_rendered(
    empty: Seq<char>,
    full: Seq<char>,
    part: nat,
    whole: nat,
    bar_length: nat,
) -> Seq<char> {
    let arrow_len = rounded_share(part, whole, bar_length);
    let body = if arrow_len == 0 {
        0
    } else {
        arrow_len - 1
    };
    let full_len = if body > bar_length - 2 {
        bar_length - 2
    } else {
        body
    };
    let empty_len = bar_length - (full_len + 2);
    let left = if arrow_len > 0 {
        full[0]
    } else {
        empty[0]
    };
    let right = if arrow_len == bar_length {
        full[2]
    } else {
        empty[2]
    };
    seq![left] + repeated(full[1], full_len as nat) + repeated(empty[1], empty_len as nat)
        + seq![right]
}

/// Rounding by quotient and remainder: the share rounds up exactly when
/// twice the remainder reaches the denominator.
pub proof fn lemma_rounded_share(part: nat, whole: nat, width: nat)
    requires
        whole > 0,
    ensures
        rounded_share(part, whole, width) == (part * width) / whole + (if 2 * ((part * width)
            % whole) >= whole {
            1nat
        } else {
            0nat
        }),
        part <= whole ==> rounded_share(part, whole, width) <= width,
        part == 0 ==> rounded_share(part, whole, width) == 0,
        part == whole ==> rounded_share(part, whole, width) == width,
{
    let x = (part * width) as int;
    let d = whole as int;
    let q = x / d;
    let r = x % d;
    assert(2 * part * width == 2 * x) by (nonlinear_arith)
        requires
            x == part * width,
    ;
    assert(x == d * q + r && 0 <= r < d) by (nonlinear_arith)
        requires
            d > 0,
            q == x / d,
            r == x % d,
    ;
    let up: int = if 2 * r >= d {
        1
    } else {
        0
    };
    assert((2 * x + d) / (2 * d) == q + up) by (nonlinear_arith)
        requires
            x == d * q + r,
            0 <= r < d,
            d > 0,
            up == (if 2 * r >= d {
                1int
            } else {
                0int
            }),
    ;
    if part <= whole {
        assert(x <= d * width) by (nonlinear_arith)
            requires
                x == part * width,
                part <= whole,
                d == whole,
        ;
        assert((2 * x + d) / (2 * d) <= width) by (nonlinear_arith)
            requires
                0 <= x <= d * width,
                d > 0,
        ;
    }
    if part == 0 {
        assert(x == 0) by (nonlinear_arith)
            requires
                x == part * width,
                part == 0,
        ;
    }
    if part == whole {
        assert((2 * x + d) / (2 * d) == width) by (nonlinear_arith)
            requires
                x == d * width,
                d > 0,
                width >= 0,
        ;
    }
}

/// Edge glyphs of a `Fancy` bar of at least two characters: nothing done
/// shows the empty left edge; everything done shows the full right edge; in
/// between the right edge is empty unless rounding already fills the bar.
/// The bar is exactly as wide as asked.
pub proof fn lemma_fancy_edges(empty: Seq<char>, full: Seq<char>, part: nat, whole: nat, bar_length: nat)
    requires
        whole > 0,
        part <= whole,
        bar_length >= 2,
    ensures
        fancy_rendered(empty, full, part, whole, bar_length).len() == bar_length,
        part == 0 ==> fancy_rendered(empty, full, part, whole, bar_length).first() == empty[0],
        part == whole ==> fancy_rendered(empty, full, part, whole, bar_length).last() == full[2],
        0 < part < whole ==> fancy_rendered(empty, full, part, whole, bar_length).last() == (if rounded_share(
            part,
            whole,
            bar_length,
        ) == bar_length {
            full[2]
        } else {
            empty[2]
        }),
{
    lemma_rounded_share(part, whole, bar_length);
}

/// A bar of two edge glyphs around a body, drawn from a triple of empty
/// glyphs and a triple of full ones.
#[derive(Debug, PartialEq, Eq, Clone, Copy)]
pub struct Fancy {
    empty_bar: [char; 3],
    full_bar: [char; 3],
}

impl Fancy {
    /// Left edge, body and right edge of the part still open.
    pub closed spec fn empty(&self) -> Seq<char> {
        self.empty_bar@
    }

    /// Left edge, body and right edge of the completed part.
    pub closed spec fn full(&self) -> Seq<char> {
        self.full_bar@
    }

    /// An arrow with the given glyph triples.
    pub fn new(empty_bar: [char; 3], full_bar: [char; 3]) -> (r: Self)
        ensures
            r.empty() == empty_bar@,
            r.full() == full_bar@,
    {
        Fancy { empty_bar, full_bar }
    }
}

impl Default for Fancy {
    /// The glyphs that the Fira Code typeface joins into one bar.
    fn default() -> (r: Self)
        ensures
            r.empty() == seq!['\u{ee00}', '\u{ee01}', '\u{ee02}'],
            r.full() == seq!['\u{ee03}', '\u{ee04}', '\u{ee05}'],
    {
        let r = Fancy {
            empty_bar: ['\u{ee00}', '\u{ee01}', '\u{ee02}'],
            full_bar: ['\u{ee03}', '\u{ee04}', '\u{ee05}'],
        };
        assert(r.empty() =~= seq!['\u{ee00}', '\u{ee01}', '\u{ee02}']);
        assert(r.full() =~= seq!['\u{ee03}', '\u{ee04}', '\u{ee05}']);
        r
    }
}

/// `Fancy` draws the first fraction only; it needs at least one layer and
/// room for its two edges.
impl<const N: usize> Arrow<N> for Fancy {
    open spec fn padding(&self) -> nat {
        0
    }

    open spec fn fits(&self, bar_length: nat) -> bool {
        N >= 1 && bar_length >= 2
    }

    open spec fn rendered(&self, parts: Seq<nat>, whole: nat, bar_length: nat) -> Seq<char> {
        fancy_rendered(self.empty(), self.full(), parts[0], whole, bar_length)
    }

    fn build(&self, fractions: Fractions<N>, bar_length: usize) -> (s: String)
        ensures
            s@.len() == bar_length,
    {
        let part = fractions.at(0);
        let whole = fractions.total();
        proof {
            assert(fractions.parts()[0] <= fractions.whole());
            lemma_rounded_share(part as nat, whole as nat, bar_length as nat);
            lemma_fancy_edges(self.empty(), self.full(), part as nat, whole as nat, bar_length as nat);
            assert(part * bar_length <= 0xffff_ffff_ffff_ffff * 0xffff_ffff_ffff_ffff)
                by (nonlinear_arith)
                requires
                    0 <= part <= 0xffff_ffff_ffff_ffff,
                    0 <= bar_length <= 0xffff_ffff_ffff_ffff,
            ;
        }
        let span: u128 = part as u128 * bar_length as u128;
        let quotient = span / whole as u128;
        let remainder = span % whole as u128;
        let arrow_len = if 2 * remainder >= whole as u128 {
            (quotient + 1) as usize
        } else {
            quotient as usize
        };
        assert(arrow_len == rounded_share(part as nat, whole as nat, bar_length as nat));
        let body = if arrow_len == 0 {
            0
        } else {
            arrow_len - 1
        };
        let full_len = if body > bar_length - 2 {
            bar_length - 2
        } else {
            body
        };
        let empty_len = bar_length - (full_len + 2);
        let mut arrow = String::new();
        arrow.push(
            if arrow_len == 0 {
                self.empty_bar[0]
            } else {
                self.full_bar[0]
            },
        );
        push_repeated(&mut arrow, self.full_bar[1], full_len);
        push_repeated(&mut arrow, self.empty_bar[1], empty_len);
        arrow.push(
            if arrow_len == bar_length {
                self.full_bar[2]
            } else {
                self.empty_bar[2]
            },
        );
        assert(arrow@ =~= fancy_rendered(
            self.empty(),
            self.full(),
            part as nat,
            whole as nat,
            bar_length as nat,
        ));
        arrow
    }

    fn padding_needed(&self) -> (p: usize) {
        0
    }

    fn accepts(&self, bar_length: usize) -> (b: bool) {
        N >= 1 && bar_length >= 2
    }
}

} // verus!
