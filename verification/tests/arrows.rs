use nested_progress::arrow::{Arrow, Fancy, Fractions, Simple, UnicodeBar};

fn of<const N: usize>(parts: [usize; N], whole: usize) -> Fractions<N> {
    Fractions::new(parts, whole).unwrap()
}

fn ascii_arrow() -> Fancy {
    Fancy::new(['(', ' ', ')'], ['{', '-', '}'])
}

#[test]
fn arrow_empty_arrow() {
    assert_eq!(
        Simple::<1>::default().build(of([0], 10), 12),
        String::from("[>         ]")
    );
    assert_eq!(
        Arrow::<1>::build(&ascii_arrow(), of([0], 10), 10),
        String::from("(        )")
    );
}

#[test]
fn arrow_short_arrow() {
    assert_eq!(
        Simple::<1>::default().build(of([2], 10), 12),
        String::from("[==>       ]")
    );
    assert_eq!(
        Arrow::<1>::build(&ascii_arrow(), of([2], 10), 10),
        String::from("{-       )")
    );
}

#[test]
fn arrow_long_arrow() {
    assert_eq!(
        Simple::<1>::default().build(of([9], 10), 12),
        String::from("[=========>]")
    );
    assert_eq!(
        Arrow::<1>::build(&ascii_arrow(), of([9], 10), 10),
        String::from("{--------)")
    );
}

#[test]
fn arrow_full_arrow() {
    assert_eq!(
        Simple::<1>::default().build(of([10], 10), 12),
        String::from("[==========]")
    );
    assert_eq!(
        Arrow::<1>::build(&ascii_arrow(), of([10], 10), 10),
        String::from("{--------}")
    );
}

#[test]
fn double_arrow() {
    assert_eq!(
        Simple::<2>::default().build(of([3, 5], 10), 12),
        String::from("[===-->    ]")
    );
}

#[test]
fn fractions_must_be_ordered_and_whole() {
    assert!(Fractions::new([1, 2, 3], 3).is_some());
    assert!(Fractions::new([0, 0], 1).is_some());
    assert!(Fractions::<0>::new([], 1).is_some());
    assert!(Fractions::new([1], 0).is_none());
    assert!(Fractions::new([2, 1], 3).is_none());
    assert!(Fractions::new([1, 4], 3).is_none());
}

#[test]
fn fractions_give_back_their_parts() {
    let f = of([3, 5], 10);
    assert_eq!(f.at(0), 3);
    assert_eq!(f.at(1), 5);
    assert_eq!(f.total(), 10);
}

#[test]
fn simple_is_as_wide_as_asked() {
    let arrow = Simple::<2>::default();
    for whole in 1usize..8 {
        for outer in 0..=whole {
            for inner in 0..=outer {
                for width in 2usize..20 {
                    let bar = arrow.build(of([inner, outer], whole), width);
                    assert_eq!(bar.chars().count(), width);
                    assert!(bar.starts_with('['));
                    assert!(bar.ends_with(']'));
                }
            }
        }
    }
}

#[test]
fn simple_at_its_smallest_widths() {
    let arrow = Simple::<1>::default();
    assert!(!arrow.accepts(1));
    assert!(arrow.accepts(2));
    assert_eq!(arrow.padding_needed(), 2);
    assert_eq!(arrow.build(of([1], 2), 2), "[]");
    assert_eq!(arrow.build(of([0], 2), 3), "[>]");
    assert_eq!(arrow.build(of([1], 2), 3), "[>]");
    assert_eq!(arrow.build(of([2], 2), 3), "[=]");
}

#[test]
fn simple_rounds_each_run_down() {
    // 1/4 and 2/4 of 10: two runs of floor(2.5) = 2 each.
    assert_eq!(
        Simple::<2>::default().build(of([1, 2], 4), 12),
        "[==-->     ]"
    );
    // 1/3 of 10 is 3, the second third of 10 is 3 again: 6 filled, not 6.67.
    assert_eq!(
        Simple::<2>::default().build(of([1, 2], 3), 12),
        "[===--->   ]"
    );
}

#[test]
fn simple_omits_the_tip_when_full() {
    assert_eq!(
        Simple::<2>::default().build(of([4, 10], 10), 12),
        "[====------]"
    );
}

#[test]
fn unicode_bars_count_characters() {
    let rising: Simple<1> = UnicodeBar::Rising().into();
    assert_eq!(rising.padding_needed(), 0);
    assert_eq!(
        rising.build(of([3], 5), 5),
        "\u{2588}\u{2588}\u{2588}\u{2581}\u{2581}"
    );
    let boxes: Simple<1> = Simple::from(UnicodeBar::Box());
    assert_eq!(boxes.build(of([1], 2), 4), "\u{25a0}\u{25a0}\u{25a1}\u{25a1}");
    let circles: Simple<1> = UnicodeBar::Circle().into();
    assert_eq!(circles.build(of([0], 2), 2), "\u{25ef}\u{25ef}");
    let slanted: Simple<1> = UnicodeBar::Parallelogramm().into();
    assert_eq!(slanted.build(of([2], 2), 2), "\u{25b0}\u{25b0}");
    assert_eq!(rising.build(of([5], 5), 0), "");
}

#[test]
fn grayscale_has_two_shades() {
    let arrow = Simple::unicode_grayscale();
    assert_eq!(
        arrow.build(of([1, 3], 4), 4),
        "\u{2588}\u{2593}\u{2593}\u{2592}"
    );
}

#[test]
fn fancy_edges_follow_the_fraction() {
    let arrow = ascii_arrow();
    for whole in 1usize..7 {
        for width in 2usize..15 {
            let none = Arrow::<1>::build(&arrow, of([0], whole), width);
            assert_eq!(none.chars().count(), width);
            assert!(none.starts_with('('));
            assert!(none.ends_with(')'));
            let all = Arrow::<1>::build(&arrow, of([whole], whole), width);
            assert_eq!(all.chars().count(), width);
            assert!(all.starts_with('{'));
            assert!(all.ends_with('}'));
        }
    }
}

#[test]
fn fancy_rounds_to_the_nearest() {
    let arrow = ascii_arrow();
    // 1/4 of 10 is 2.5 and rounds up to 3: two body glyphs.
    assert_eq!(Arrow::<1>::build(&arrow, of([1], 4), 10), "{--      )");
    // 1/3 of 10 is 3.33 and rounds to 3.
    assert_eq!(Arrow::<1>::build(&arrow, of([1], 3), 10), "{--      )");
    // 2/3 of 10 is 6.67 and rounds to 7.
    assert_eq!(Arrow::<1>::build(&arrow, of([2], 3), 10), "{------  )");
    // 1/100 of 10 rounds to nothing drawn.
    assert_eq!(Arrow::<1>::build(&arrow, of([1], 100), 10), "(        )");
    // 99/100 of 10 rounds to the full width before the work is done.
    assert_eq!(Arrow::<1>::build(&arrow, of([99], 100), 10), "{--------}");
}

#[test]
fn fancy_takes_the_first_fraction_and_two_columns() {
    let arrow = ascii_arrow();
    assert_eq!(Arrow::<2>::build(&arrow, of([5, 10], 10), 10), "{----    )");
    assert_eq!(Arrow::<1>::build(&arrow, of([0], 1), 2), "()");
    assert_eq!(Arrow::<1>::build(&arrow, of([1], 1), 2), "{}");
    assert!(!Arrow::<1>::accepts(&arrow, 1));
    assert!(Arrow::<1>::accepts(&arrow, 2));
    assert!(!Arrow::<0>::accepts(&arrow, 10));
    assert_eq!(Arrow::<1>::padding_needed(&arrow), 0);
}

#[test]
fn fancy_default_uses_the_joined_glyphs() {
    let arrow = Fancy::default();
    assert_eq!(
        Arrow::<1>::build(&arrow, of([1], 2), 4),
        "\u{ee03}\u{ee04}\u{ee01}\u{ee02}"
    );
}
