use nested_progress::arrow::{Arrow, Fancy, Simple};
use nested_progress::bar::{Frame, ProgressBarHolder};
use nested_progress::bound::{Bound, Bounded, Unbounded};
use nested_progress::error::ProgressError;
use nested_progress::{Bar, Progress};

fn ascii_arrow() -> Fancy {
    Fancy::new(['(', ' ', ')'], ['{', '-', '}'])
}

fn bounded<const N: usize, A: Arrow<N>>(
    pre_msg: &str,
    arrow: A,
    size: usize,
) -> ProgressBarHolder<N, A, Bounded> {
    Progress::new_external_bound((), Bar::new(pre_msg.to_string(), false, arrow), 0, size)
        .get_iter()
        .1
}

fn line(frame: Result<Frame, ProgressError>) -> String {
    frame.unwrap().line
}

fn refusal(frame: Result<Frame, ProgressError>) -> ProgressError {
    match frame {
        Ok(frame) => panic!("accepted: {}", frame.line),
        Err(e) => e,
    }
}

fn blanks(count: usize) -> String {
    " ".repeat(count)
}

#[test]
fn a_line_shows_bar_counts_and_size() {
    let mut holder = bounded("pre ", Simple::<1>::default(), 10);
    assert_eq!(
        line(holder.advance(0, "")),
        format!("\rpre [=>{}]01/10", blanks(8))
    );
    assert_eq!(
        line(holder.advance(0, "")),
        format!("\rpre [==>{}]02/10", blanks(7))
    );
    assert_eq!(
        line(holder.advance(0, "")),
        format!("\rpre [===>{}]03/10", blanks(6))
    );
    assert_eq!(holder.counts(), [3]);
}

#[test]
fn counts_come_innermost_first() {
    let mut holder = bounded("", Simple::<2>::default(), 5);
    assert_eq!(line(holder.advance(1, "")), "\r[=>   ]1+1/5");
    assert_eq!(line(holder.advance(0, "")), "\r[=->  ]1+2/5");
    assert_eq!(line(holder.advance(0, "")), "\r[=--> ]1+3/5");
    assert_eq!(holder.counts(), [3, 1]);
}

#[test]
fn counts_are_padded_to_the_digits_of_the_size() {
    let mut holder = bounded::<1, Fancy>("", ascii_arrow(), 100);
    let first = line(holder.advance(0, ""));
    assert!(first.ends_with(")001/100"));
    assert_eq!(first.chars().count(), 1 + 100 + 7);
    let mut nine = bounded("", Simple::<1>::default(), 9);
    assert_eq!(
        line(nine.advance(0, "")),
        format!("\r[=>{}]1/9", blanks(7))
    );
    let mut ten = bounded("", Simple::<1>::default(), 10);
    assert_eq!(
        line(ten.advance(0, "")),
        format!("\r[=>{}]01/10", blanks(8))
    );
}

#[test]
fn a_fancy_bar_in_the_line() {
    let mut holder = bounded::<1, Fancy>("", ascii_arrow(), 10);
    for _ in 0..4 {
        holder.advance(0, "").unwrap();
    }
    assert_eq!(line(holder.advance(0, "")), "\r{----    )05/10");
}

#[test]
fn a_cap_on_the_line_sets_the_bar_width() {
    let bar = Bar::new("pre ".to_string(), false, Simple::<1>::default());
    let mut progress = Progress::new_external_bound((), bar, 0, 10);
    assert_eq!(progress.max_len(), None);
    progress.set_max_len(30);
    assert_eq!(progress.max_len(), Some(30));
    let mut holder = progress.get_iter().1;
    // 30 - (4 + 2 + 2 * 2 + 0) = 20 columns for the bar, 18 inside it.
    assert_eq!(
        line(holder.advance(0, "")),
        format!("\rpre [=>{}]01/10", blanks(16))
    );
}

#[test]
fn the_cap_can_be_lifted_and_written_through() {
    let bar = Bar::new(String::new(), false, Simple::<1>::default());
    let mut progress = Progress::new_external_bound((), bar, 0, 4);
    progress.set_max_len(7);
    progress.unset_max_len();
    assert_eq!(progress.max_len(), None);
    *progress.mut_max_len() = Some(12);
    assert_eq!(progress.max_len(), Some(12));
    let mut holder = progress.get_iter().1;
    // 12 - (0 + 1 + 2 * 1 + 0) = 9 columns for the bar, 7 inside it.
    assert_eq!(
        line(holder.advance(0, "")),
        format!("\r[=>{}]1/4", blanks(5))
    );
}

#[test]
fn reserved_width_counts_against_the_cap() {
    let bar = Bar::new(String::new(), false, Simple::<1>::default());
    let mut progress = Progress::new_external_bound((), bar, 5, 4);
    progress.set_max_len(17);
    let mut holder = progress.get_iter().1;
    // 17 - (0 + 1 + 2 * 1 + 5) = 9 columns, whatever the text's own length.
    assert_eq!(
        line(holder.advance(0, " ok")),
        format!("\r[=>{}]1/4 ok", blanks(5))
    );
    assert_eq!(
        line(holder.advance(0, " done")),
        format!("\r[===>{}]2/4 done", blanks(3))
    );
}

#[test]
fn trailing_text_longer_than_reserved_is_refused() {
    let bar = Bar::new(String::new(), false, Simple::<1>::default());
    let mut holder = Progress::new_external_bound((), bar, 3, 4).get_iter().1;
    assert_eq!(
        refusal(holder.advance(0, "four")),
        ProgressError::PostMessageTooLong
    );
    assert_eq!(holder.counts(), [0]);
    assert!(holder.advance(0, "abc").is_ok());
    assert_eq!(holder.counts(), [1]);
}

#[test]
fn a_layer_out_of_range_is_refused() {
    let mut holder = bounded("", Simple::<2>::default(), 5);
    assert_eq!(refusal(holder.advance(2, "")), ProgressError::OutOfRangeLayer);
    assert_eq!(refusal(holder.inc(7)), ProgressError::OutOfRangeLayer);
    assert_eq!(holder.counts(), [0, 0]);
    let mut none = bounded::<0, Fancy>("", ascii_arrow(), 5);
    assert_eq!(refusal(none.advance(0, "")), ProgressError::OutOfRangeLayer);
}

#[test]
fn a_layer_at_its_bound_is_refused() {
    let mut holder = bounded("", Simple::<1>::default(), 2);
    assert!(holder.advance(0, "").is_ok());
    assert!(holder.advance(0, "").is_ok());
    assert_eq!(refusal(holder.advance(0, "")), ProgressError::BoundExceeded);
    assert_eq!(holder.counts(), [2]);
    let mut empty = bounded("", Simple::<1>::default(), 0);
    assert_eq!(refusal(empty.advance(0, "")), ProgressError::BoundExceeded);
}

#[test]
fn a_bar_without_room_is_refused() {
    let mut narrow = bounded::<1, Fancy>("", Fancy::default(), 1);
    assert_eq!(refusal(narrow.advance(0, "")), ProgressError::BarDoesNotFit);
    assert_eq!(narrow.counts(), [0]);
    let bar = Bar::new("a long prefix ".to_string(), false, Simple::<1>::default());
    let mut progress = Progress::new_external_bound((), bar, 0, 10);
    progress.set_max_len(10);
    let mut capped = progress.get_iter().1;
    assert_eq!(refusal(capped.advance(0, "")), ProgressError::BarDoesNotFit);
    assert_eq!(capped.counts(), [0]);
}

#[test]
fn without_a_bound_there_is_no_line() {
    let bar = Bar::new(String::new(), false, Simple::<1>::default());
    let mut holder = Progress::new_unbound((), bar).get_iter().1;
    assert_eq!(refusal(holder.advance(0, "")), ProgressError::NoRendering);
    assert_eq!(refusal(holder.inc(0)), ProgressError::NoRendering);
    assert_eq!(refusal(holder.inc(1)), ProgressError::OutOfRangeLayer);
    assert_eq!(holder.counts(), [0]);
    assert!(Unbounded.is_in_bound(usize::MAX));
}

#[test]
fn in_bound_is_below_the_size() {
    let bound = Bounded::new(3, 0, None);
    assert!(bound.is_in_bound(0));
    assert!(bound.is_in_bound(2));
    assert!(!bound.is_in_bound(3));
    assert!(!bound.is_in_bound(4));
    assert_eq!(Bounded::new(3, 0, Some(40)).max_len(), Some(40));
}

#[test]
fn display_renders_a_given_counter() {
    let bound = Bounded::new(10, 4, None);
    let bar = Bar::new("x".to_string(), false, Simple::<2>::default());
    assert_eq!(
        bound.display(&bar, &[5, 3], " end").unwrap(),
        format!("\rx[===-->{}]03+05/10 end", blanks(4))
    );
    assert_eq!(
        bound.display(&bar, &[5, 3], " ends"),
        Err(ProgressError::PostMessageTooLong)
    );
    assert_eq!(
        Unbounded.display(&bar, &[5, 3], ""),
        Err(ProgressError::NoRendering)
    );
}

#[test]
fn display_of_an_empty_whole_draws_nothing_done() {
    let bound = Bounded::new(0, 0, None);
    let bar = Bar::new(String::new(), false, Simple::<1>::default());
    assert_eq!(bound.display(&bar, &[0], "").unwrap(), "\r[]0/0");
}

#[test]
fn an_inner_advance_carries_outwards() {
    let mut holder = bounded::<3, Fancy>("", ascii_arrow(), 9);
    holder.advance(2, "").unwrap();
    assert_eq!(holder.counts(), [1, 1, 1]);
    holder.advance(0, "").unwrap();
    assert_eq!(holder.counts(), [2, 1, 1]);
    holder.advance(2, "").unwrap();
    assert_eq!(holder.counts(), [2, 2, 2]);
    holder.advance(1, "").unwrap();
    assert_eq!(holder.counts(), [3, 3, 2]);
    holder.advance(1, "").unwrap();
    assert_eq!(holder.counts(), [4, 4, 2]);
    holder.advance(2, "").unwrap();
    assert_eq!(holder.counts(), [4, 4, 3]);
}

#[test]
fn the_counter_stays_nested_under_any_calls() {
    let mut holder = bounded::<4, Fancy>("", ascii_arrow(), 6);
    let mut seed: usize = 12345;
    let mut finished = 0;
    for _ in 0..400 {
        seed = seed.wrapping_mul(1103515245).wrapping_add(12345);
        let layer = (seed >> 16) % 5;
        let before = holder.counts();
        match holder.advance(layer, "") {
            Ok(frame) => {
                let after = holder.counts();
                assert_eq!(after[layer], before[layer] + 1);
                for k in 0..4 {
                    assert!(after[k] >= before[k]);
                    assert!(after[k] <= 6);
                }
                if frame.last {
                    finished += 1;
                    assert_eq!(after, [6, 6, 6, 6]);
                }
            }
            Err(e) => {
                assert_eq!(holder.counts(), before);
                if layer >= 4 {
                    assert_eq!(e, ProgressError::OutOfRangeLayer);
                } else {
                    assert_eq!(e, ProgressError::BoundExceeded);
                    assert_eq!(before[layer], 6);
                }
            }
        }
        let now = holder.counts();
        assert!(now[0] >= now[1] && now[1] >= now[2] && now[2] >= now[3]);
    }
    assert_eq!(holder.counts(), [6, 6, 6, 6]);
    assert_eq!(finished, 1);
}

#[test]
fn the_last_line_is_flagged_once() {
    let mut holder = bounded("", Simple::<2>::default(), 2);
    assert!(!holder.advance(0, "").unwrap().last);
    assert!(!holder.advance(1, "").unwrap().last);
    assert!(!holder.advance(0, "").unwrap().last);
    let end = holder.advance(1, "").unwrap();
    assert!(end.last);
    assert_eq!(end.line, "\r[==]2+2/2");
    assert_eq!(refusal(holder.advance(1, "")), ProgressError::BoundExceeded);
    assert_eq!(refusal(holder.advance(0, "")), ProgressError::BoundExceeded);
    assert_eq!(holder.counts(), [2, 2]);
}

#[test]
fn a_timed_bar_appends_minutes_and_seconds() {
    let bar = Bar::new(String::new(), true, Simple::<1>::default());
    let mut progress = Progress::new_external_bound((), bar, 0, 4);
    progress.set_max_len(15);
    let mut holder = progress.get_iter().1;
    // 15 - (0 + 1 + 2 * 1 + 6) = 6 columns for the bar.
    let shown = line(holder.inc(0));
    let clock: Vec<char> = shown.chars().skip(shown.chars().count() - 6).collect();
    assert_eq!(clock[0], ' ');
    assert!(clock[1].is_ascii_digit() && clock[2].is_ascii_digit());
    assert_eq!(clock[3], ':');
    assert!(clock[4].is_ascii_digit() && clock[5].is_ascii_digit());
    assert!(shown.starts_with("\r[=>  ]1/4 "));
    assert_eq!(shown.chars().count(), 1 + 6 + 3 + 6);
}

#[test]
fn an_untimed_bar_appends_nothing() {
    let mut holder = bounded("", Simple::<1>::default(), 4);
    assert_eq!(line(holder.inc(0)), "\r[=>  ]1/4");
}

#[test]
fn next_hands_out_items_with_their_lines() {
    let bar = Bar::new(String::new(), false, Simple::<1>::default());
    let mut progress = Progress::new_external_bound(vec!['a', 'b'].into_iter(), bar, 0, 2);
    let (item, frame) = progress.next().unwrap().unwrap();
    assert_eq!(item, 'a');
    assert_eq!(frame.line, "\r[=>]1/2");
    assert!(!frame.last);
    let (item, frame) = progress.next().unwrap().unwrap();
    assert_eq!(item, 'b');
    assert_eq!(frame.line, "\r[==]2/2");
    assert!(frame.last);
    assert!(progress.next().unwrap().is_none());
    assert!(progress.next().unwrap().is_none());
    assert_eq!(progress.get_iter().1.counts(), [2]);
}

#[test]
fn next_refuses_more_items_than_the_size() {
    let bar = Bar::new(String::new(), false, Simple::<1>::default());
    let mut progress = Progress::new_external_bound(0..3, bar, 0, 1);
    assert!(progress.next().unwrap().is_some());
    assert_eq!(progress.next().err(), Some(ProgressError::BoundExceeded));
}

#[test]
fn next_without_a_bound_is_refused() {
    let bar = Bar::new(String::new(), false, Simple::<1>::default());
    let mut progress = Progress::new_unbound(0..3, bar);
    assert_eq!(progress.next().err(), Some(ProgressError::NoRendering));
    assert_eq!(progress.get_iter().1.counts(), [0]);
}

#[test]
fn a_source_of_known_length_runs_to_its_end() {
    let bar = Bar::new(String::new(), false, Simple::<1>::default());
    let source = vec![7, 8, 9].into_iter();
    let size = source.len();
    let mut progress = Progress::new_external_bound(source, bar, 0, size);
    let mut lines = Vec::new();
    while let Some((_, frame)) = progress.next().unwrap() {
        lines.push(frame.line);
    }
    assert_eq!(
        lines,
        vec!["\r[=> ]1/3", "\r[==>]2/3", "\r[===]3/3"]
    );
}

#[test]
fn progress_converts_into_its_parts() {
    let bar = Bar::new(String::new(), false, Simple::<1>::default());
    let progress = Progress::new_external_bound(5u8, bar, 0, 2);
    let (iter, mut holder): (u8, ProgressBarHolder<1, Simple<1>, Bounded>) = progress.into();
    assert_eq!(iter, 5);
    assert_eq!(line(holder.advance(0, "")), "\r[=>]1/2");
}
