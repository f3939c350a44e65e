//! The `Simple` arrow: runs of fill glyphs between a prefix and a suffix,
//! with a tip at the leading edge.

use crate::arrow::{ordered_fractions, Arrow, Fractions};
use crate::text::{push_repeated, repeated};
use vstd::prelude::*;

verus! {

/// What a `Simple` arrow is made of.
pub ghost struct SimpleView {
    pub prefix: Seq<char>,
    pub suffix: Seq<char>,
    pub base: char,
    pub fills: Seq<char>,
    pub tip: Seq<char>,
}

/// The length of run `k`: the share of `inner` that lies between breakpoint
/// `k - 1` (or zero) and breakpoint `k`, rounded down.
pub open spec fn run_len(parts: Seq<nat>, whole: nat, inner: nat, k: int) -> nat {
    let before = if k == 0 {
        0
    } else {
        parts[k - 1]
    };
    (((parts[k] - before) * inner) / (whole as int)) as nat
}

/// The first `k` runs: run `j` is `run_len(.., j)` copies of `fills[j]`.
pub open spec fn runs(fills: Seq<char>, parts: Seq<nat>, whole: nat, inner: nat, k: nat) -> Seq<char>
    decreases k,
{
    if k == 0 {
        Seq::empty()
    } else {
        runs(fills, parts, whole, inner, (k - 1) as nat) + repeated(
            fills[k - 1],
            run_len(parts, whole, inner, k - 1),
        )
    }
}

/// The bar of a `Simple` arrow: prefix, the runs, the tip where it still
/// has room, the base character up to the width, suffix.
pub open spec fn simple_rendered(v: SimpleView, parts: Seq<nat>, whole: nat, bar_length: nat) -> Seq<char> {
    let inner = (bar_length - v.prefix.len() - v.suffix.len()) as nat;
    let filled = runs(v.fills, parts, whole, inner, parts.len());
    let tip = if inner - filled.len() >= v.tip.len() {
        v.tip
    } else {
        Seq::empty()
    };
    let rest = (inner - filled.len() - tip.len()) as nat;
    v.prefix + filled + tip + repeated(v.base, rest) + v.suffix
}

proof fn lemma_floor_sum(a: int, b: int, d: int)
    by (nonlinear_arith)
    requires
        0 <= a,
        0 <= b,
        0 < d,
    ensures
        a / d + b / d <= (a + b) / d,
        0 <= a / d,
{
}

proof fn lemma_share_bound(p: int, inner: int, whole: int)
    by (nonlinear_arith)
    requires
        0 <= p <= whole,
        0 <= inner,
        0 < whole,
    ensures
        0 <= p * inner,
        (p * inner) / whole <= inner,
{
}

proof fn lemma_split_product(p: int, q: int, inner: int)
    by (nonlinear_arith)
    requires
        0 <= q <= p,
        0 <= inner,
    ensures
        (p - q) * inner + q * inner == p * inner,
        0 <= (p - q) * inner,
        0 <= q * inner,
{
}

/// The first `k` runs are no longer than the share of breakpoint `k - 1`,
/// so they never pass the inner width.
pub proof fn lemma_runs_len(fills: Seq<char>, parts: Seq<nat>, whole: nat, inner: nat, k: nat)
    requires
        ordered_fractions(parts, whole),
        k <= parts.len(),
    ensures
        k == 0 ==> runs(fills, parts, whole, inner, k).len() == 0,
        k > 0 ==> runs(fills, parts, whole, inner, k).len() <= (parts[k - 1] * inner) / whole,
        runs(fills, parts, whole, inner, k).len() <= inner,
    decreases k,
{
    if k > 0 {
        let j = (k - 1) as nat;
        lemma_runs_len(fills, parts, whole, inner, j);
        let before: nat = if j == 0 {
            0
        } else {
            parts[j - 1]
        };
        assert(before <= parts[j as int]);
        assert(parts[j as int] <= whole);
        lemma_split_product(parts[j as int] as int, before as int, inner as int);
        lemma_floor_sum((before * inner) as int, (parts[j as int] - before) * inner, whole as int);
        lemma_share_bound(parts[j as int] as int, inner as int, whole as int);
        if j == 0 {
            assert(before * inner == 0) by (nonlinear_arith)
                requires
                    before == 0,
            ;
        }
    }
}

/// Width determinism: at any width that leaves room for prefix and
/// suffix, the bar of ordered fractions is exactly as wide as asked.
pub proof fn lemma_simple_width(v: SimpleView, parts: Seq<nat>, whole: nat, bar_length: nat)
    requires
        ordered_fractions(parts, whole),
        v.prefix.len() + v.suffix.len() <= bar_length,
    ensures
        simple_rendered(v, parts, whole, bar_length).len() == bar_length,
{
    let inner = (bar_length - v.prefix.len() - v.suffix.len()) as nat;
    lemma_runs_len(v.fills, parts, whole, inner, parts.len());
}

/// A bar of `N` runs between a prefix and a suffix, with a tip glyph at the
/// leading edge.
#[derive(Debug, PartialEq, Eq, Clone, Copy)]
pub struct Simple<const N: usize> {
    arrow_prefix: &'static str,
    arrow_suffix: &'static str,
    base_char: char,
    arrow_chars: [char; N],
    arrow_tip: &'static str,
}

impl<const N: usize> View for Simple<N> {
    type V = SimpleView;

    closed spec fn view(&self) -> SimpleView {
        SimpleView {
            prefix: self.arrow_prefix@,
            suffix: self.arrow_suffix@,
            base: self.base_char,
            fills: self.arrow_chars@,
            tip: self.arrow_tip@,
        }
    }
}

impl<const N: usize> Simple<N> {
    #[verifier::type_invariant]
    spec fn frame_fits(self) -> bool {
        self.arrow_prefix@.len() + self.arrow_suffix@.len() <= usize::MAX
    }
}

impl<const N: usize> Arrow<N> for Simple<N> {
    open spec fn padding(&self) -> nat {
        self@.prefix.len() + self@.suffix.len()
    }

    open spec fn fits(&self, bar_length: nat) -> bool {
        self.padding() <= bar_length
    }

    open spec fn rendered(&self, parts: Seq<nat>, whole: nat, bar_length: nat) -> Seq<char> {
        simple_rendered(self@, parts, whole, bar_length)
    }

    fn build(&self, fractions: Fractions<N>, bar_length: usize) -> (s: String)
        ensures
            s@.len() == bar_length,
    {
        let ghost parts = fractions.parts();
        let ghost whole = fractions.whole();
        let inner = bar_length - self.padding_needed();
        let mut arrow = String::new();
        arrow.append(self.arrow_prefix);
        let mut last: usize = 0;
        let mut filled: usize = 0;
        let mut k: usize = 0;
        while k < N
            invariant
                k <= N,
                fractions.wf(),
                parts == fractions.parts(),
                whole == fractions.whole(),
                last == (if k == 0 {
                    0
                } else {
                    parts[k - 1]
                }),
                filled == runs(self@.fills, parts, whole, inner as nat, k as nat).len(),
                arrow@ == self@.prefix + runs(self@.fills, parts, whole, inner as nat, k as nat),
            decreases N - k,
        {
            let part = fractions.at(k);
            proof {
                assert(last <= parts[k as int]);
                assert(parts[k as int] <= whole);
                lemma_split_product(part as int, last as int, inner as int);
                lemma_share_bound(part as int, inner as int, whole as int);
                lemma_floor_sum(last * inner, (part - last) * inner, whole as int);
                lemma_runs_len(self@.fills, parts, whole, inner as nat, (k + 1) as nat);
                assert((part - last) * inner <= 0xffff_ffff_ffff_ffff * 0xffff_ffff_ffff_ffff)
                    by (nonlinear_arith)
                    requires
                        0 <= part - last <= 0xffff_ffff_ffff_ffff,
                        0 <= inner <= 0xffff_ffff_ffff_ffff,
                ;
            }
            let span: u128 = (part - last) as u128 * inner as u128;
            let run = (span / fractions.total() as u128) as usize;
            assert(run == run_len(parts, whole, inner as nat, k as int));
            push_repeated(&mut arrow, self.arrow_chars[k], run);
            filled = filled + run;
            last = part;
            k += 1;
            assert(arrow@ =~= self@.prefix + runs(self@.fills, parts, whole, inner as nat, k as nat));
        }
        proof {
            lemma_runs_len(self@.fills, parts, whole, inner as nat, N as nat);
            lemma_simple_width(self@, parts, whole, bar_length as nat);
        }
        let tip_len = self.arrow_tip.unicode_len();
        if inner - filled >= tip_len {
            arrow.append(self.arrow_tip);
            filled = filled + tip_len;
        }
        push_repeated(&mut arrow, self.base_char, inner - filled);
        arrow.append(self.arrow_suffix);
        assert(arrow@ =~= simple_rendered(self@, parts, whole, bar_length as nat));
        arrow
    }

    fn padding_needed(&self) -> (p: usize) {
        proof {
            use_type_invariant(self);
        }
        self.arrow_prefix.unicode_len() + self.arrow_suffix.unicode_len()
    }

    fn accepts(&self, bar_length: usize) -> (b: bool) {
        self.padding_needed() <= bar_length
    }
}

/// A pair of block glyphs for a frameless one-layer bar: the filled glyph
/// and the empty one.
#[must_use]
pub struct UnicodeBar(char, char);

#[allow(non_snake_case)]
impl UnicodeBar {
    /// The glyph of the completed part.
    pub closed spec fn fill(&self) -> char {
        self.0
    }

    /// The glyph of the part still open.
    pub closed spec fn base(&self) -> char {
        self.1
    }

    /// A full block over a low line.
    pub fn Rising() -> (r: Self)
        ensures
            r.fill() == '\u{2588}',
            r.base() == '\u{2581}',
    {
        Self('\u{2588}', '\u{2581}')
    }

    /// A black square over a white square.
    pub fn Box() -> (r: Self)
        ensures
            r.fill() == '\u{25a0}',
            r.base() == '\u{25a1}',
    {
        Self('\u{25a0}', '\u{25a1}')
    }

    /// A black circle over a white circle.
    pub fn Circle() -> (r: Self)
        ensures
            r.fill() == '\u{2b24}',
            r.base() == '\u{25ef}',
    {
        Self('\u{2b24}', '\u{25ef}')
    }

    /// A black parallelogram over a white one.
    pub fn Parallelogramm() -> (r: Self)
        ensures
            r.fill() == '\u{25b0}',
            r.base() == '\u{25b1}',
    {
        Self('\u{25b0}', '\u{25b1}')
    }
}

impl Simple<1> {
    /// The frameless arrow that draws with the glyphs of `value`.
    pub closed spec fn of_bar(value: UnicodeBar) -> Self {
        Simple {
            arrow_prefix: "",
            arrow_suffix: "",
            base_char: value.1,
            arrow_chars: [value.0],
            arrow_tip: "",
        }
    }
}

impl From<UnicodeBar> for Simple<1> {
    fn from(value: UnicodeBar) -> (r: Self)
        ensures
            r@ == (SimpleView {
                prefix: Seq::empty(),
                suffix: Seq::empty(),
                base: value.base(),
                fills: seq![value.fill()],
                tip: Seq::empty(),
            }),
    {
        proof {
            reveal_strlit("");
        }
        let r = Simple {
            arrow_prefix: "",
            arrow_suffix: "",
            base_char: value.1,
            arrow_chars: [value.0],
            arrow_tip: "",
        };
        assert(r@.fills =~= seq![value.fill()]);
        assert(r@.prefix =~= Seq::empty());
        r
    }
}

impl vstd::std_specs::convert::FromSpecImpl<UnicodeBar> for Simple<1> {
    open spec fn obeys_from_spec() -> bool {
        true
    }

    open spec fn from_spec(value: UnicodeBar) -> Self {
        Simple::<1>::of_bar(value)
    }
}

impl Simple<2> {
    /// A frameless two-layer arrow in shades of grey: full block, dark
    /// shade, over a medium shade.
    pub fn unicode_grayscale() -> (r: Self)
        ensures
            r@ == (SimpleView {
                prefix: Seq::empty(),
                suffix: Seq::empty(),
                base: '\u{2592}',
                fills: seq!['\u{2588}', '\u{2593}'],
                tip: Seq::empty(),
            }),
    {
        proof {
            reveal_strlit("");
        }
        let r = Simple {
            arrow_prefix: "",
            arrow_suffix: "",
            base_char: '\u{2592}',
            arrow_chars: ['\u{2588}', '\u{2593}'],
            arrow_tip: "",
        };
        assert(r@.fills =~= seq!['\u{2588}', '\u{2593}']);
        assert(r@.prefix =~= Seq::empty());
        r
    }
}

impl Default for Simple<1> {
    /// `[===>   ]`
    fn default() -> (r: Self)
        ensures
            r@ == (SimpleView {
                prefix: seq!['['],
                suffix: seq![']'],
                base: ' ',
                fills: seq!['='],
                tip: seq!['>'],
            }),
    {
        proof {
            reveal_strlit("[");
            reveal_strlit("]");
            reveal_strlit(">");
        }
        let r = Simple {
            arrow_prefix: "[",
            arrow_suffix: "]",
            base_char: ' ',
            arrow_chars: ['='],
            arrow_tip: ">",
        };
        assert(r@.fills =~= seq!['=']);
        assert(r@.prefix =~= seq!['[']);
        assert(r@.suffix =~= seq![']']);
        assert(r@.tip =~= seq!['>']);
        r
    }
}

impl Default for Simple<2> {
    /// `[===-->  ]`
    fn default() -> (r: Self)
        ensures
            r@ == (SimpleView {
                prefix: seq!['['],
                suffix: seq![']'],
                base: ' ',
                fills: seq!['=', '-'],
                tip: seq!['>'],
            }),
    {
        proof {
            reveal_strlit("[");
            reveal_strlit("]");
            reveal_strlit(">");
        }
        let r = Simple {
            arrow_prefix: "[",
            arrow_suffix: "]",
            base_char: ' ',
            arrow_chars: ['=', '-'],
            arrow_tip: ">",
        };
        assert(r@.fills =~= seq!['=', '-']);
        assert(r@.prefix =~= seq!['[']);
        assert(r@.suffix =~= seq![']']);
        assert(r@.tip =~= seq!['>']);
        r
    }
}

} // verus!
