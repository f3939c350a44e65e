use nested_progress::arrow::{Fancy, Simple};
use nested_progress::bound::Bounded;
use nested_progress::callback::{shared_counts, Callback, Mut, Once, Shared};
use nested_progress::clock::{format_clock, split_seconds};
use nested_progress::error::ProgressError;
use nested_progress::text::{count_digits, decimal_len, push_decimal, push_repeated, push_zero_padded};
use nested_progress::{Bar, Progress};

fn shared<const N: usize>(size: usize) -> Shared<N, Fancy, Bounded> {
    let bar = Bar::new(String::new(), false, Fancy::default());
    Progress::new_external_bound((), bar, 0, size).get_arc_iter().1
}

#[test]
fn once_handles_in_order_leave_all_ones() {
    let state = shared::<3>(4);
    for handle in Once::new(&state) {
        assert!(handle.call().is_ok());
    }
    assert_eq!(shared_counts(&state), [1, 1, 1]);
}

#[test]
fn once_handles_inner_first_carry_outwards() {
    let state = shared::<3>(5);
    let mut handles: Vec<_> = Once::new(&state).into_iter().collect();
    assert!(handles.pop().unwrap().call().is_ok());
    assert_eq!(shared_counts(&state), [1, 1, 1]);
    assert!(handles.pop().unwrap().call().is_ok());
    assert_eq!(shared_counts(&state), [2, 2, 1]);
    assert!(handles.pop().unwrap().call().is_ok());
    assert_eq!(shared_counts(&state), [3, 2, 1]);
}

#[test]
fn once_handles_succeed_in_every_order() {
    let orders = [
        [0, 1, 2],
        [0, 2, 1],
        [1, 0, 2],
        [1, 2, 0],
        [2, 0, 1],
        [2, 1, 0],
    ];
    for order in orders {
        let state = shared::<3>(3);
        let mut handles: Vec<Option<Once<3, Fancy, Bounded>>> =
            Once::new(&state).into_iter().map(Some).collect();
        for layer in order {
            let before = shared_counts(&state);
            assert!(handles[layer].take().unwrap().call().is_ok());
            let after = shared_counts(&state);
            assert_eq!(after[layer], before[layer] + 1);
            assert!(after[0] >= after[1] && after[1] >= after[2]);
        }
        let end = shared_counts(&state);
        assert!(end[2] == 1 && end[0] <= 3);
        assert_eq!(end == [1, 1, 1], order == [0, 1, 2]);
    }
}

#[test]
fn once_handle_as_a_closure() {
    let state = shared::<2>(4);
    let calls = Callback::new(&state).get_once_calls();
    let mut lines = Vec::new();
    for handle in calls {
        let call = handle.as_fn();
        lines.push(call().unwrap().line);
    }
    assert_eq!(lines.len(), 2);
    assert_eq!(shared_counts(&state), [1, 1]);
}

#[test]
fn a_mut_handle_walks_the_layers_once() {
    let state = shared::<2>(3);
    let mut handle = Mut::new(&state);
    assert!(handle.call().is_ok());
    assert_eq!(shared_counts(&state), [1, 0]);
    let second = handle.call().unwrap();
    assert!(!second.last);
    assert_eq!(shared_counts(&state), [1, 1]);
    assert_eq!(handle.call().err(), Some(ProgressError::LayerBudgetExhausted));
    assert_eq!(handle.call().err(), Some(ProgressError::LayerBudgetExhausted));
    assert_eq!(shared_counts(&state), [1, 1]);
}

#[test]
fn a_refused_call_leaves_the_cursor() {
    let bar = Bar::new(String::new(), false, Simple::<1>::default());
    let state = Progress::new_external_bound((), bar, 0, 0).get_arc_iter().1;
    let mut handle = Callback::new(&state).get_mut_call();
    assert_eq!(handle.call().err(), Some(ProgressError::BoundExceeded));
    assert_eq!(handle.call().err(), Some(ProgressError::BoundExceeded));
    assert_eq!(shared_counts(&state), [0]);
}

#[test]
fn two_handles_share_one_state() {
    let state = shared::<1>(3);
    let mut first = Mut::new(&state);
    let mut second = Mut::new(&state);
    assert!(first.call().is_ok());
    assert!(second.call().is_ok());
    assert_eq!(shared_counts(&state), [2]);
}

#[test]
fn progress_converts_into_a_shared_state() {
    let bar = Bar::new(String::new(), false, Fancy::default());
    let progress = Progress::new_external_bound('x', bar, 0, 4);
    let (iter, state): (char, Shared<2, Fancy, Bounded>) = progress.into();
    assert_eq!(iter, 'x');
    assert_eq!(shared_counts(&state), [0, 0]);
    let mut handle = Mut::new(&state);
    assert!(handle.call().is_ok());
    assert_eq!(shared_counts(&state), [1, 0]);
}

#[test]
fn a_shared_line_is_the_line_of_the_session() {
    let bar = Bar::new("x ".to_string(), false, Simple::<1>::default());
    let state = Progress::new_external_bound((), bar, 0, 2).get_arc_iter().1;
    let mut handles = Once::new(&state).into_iter();
    let frame = handles.next().unwrap().call().unwrap();
    assert_eq!(frame.line, "\rx [=>]1/2");
    assert!(!frame.last);
    let frame = Mut::new(&state).call().unwrap();
    assert_eq!(frame.line, "\rx [==]2/2");
    assert!(frame.last);
}

#[test]
fn seconds_split_into_hours_minutes_seconds() {
    assert_eq!(split_seconds(0), (0, 0, 0));
    assert_eq!(split_seconds(59), (0, 0, 59));
    assert_eq!(split_seconds(60), (0, 1, 0));
    assert_eq!(split_seconds(3725), (1, 2, 5));
    assert_eq!(split_seconds(86399), (23, 59, 59));
}

#[test]
fn durations_split_by_their_whole_seconds() {
    let d = std::time::Duration::from_millis(125_900);
    assert_eq!(nested_progress::clock::split_duration(&d), (0, 2, 5));
    let d = std::time::Duration::from_secs(3 * 3600 + 59 * 60 + 58);
    assert_eq!(nested_progress::clock::split_duration(&d), (3, 59, 58));
    let d = std::time::Duration::from_nanos(999_999_999);
    assert_eq!(nested_progress::clock::split_duration(&d), (0, 0, 0));
}

#[test]
fn the_clock_is_six_wide() {
    assert_eq!(format_clock(0, 0), " 00:00");
    assert_eq!(format_clock(2, 5), " 02:05");
    assert_eq!(format_clock(59, 59), " 59:59");
    assert_eq!(nested_progress::clock::CLOCK_WIDTH, 6);
}

#[test]
fn numbers_in_decimal() {
    let mut out = String::from("n=");
    push_decimal(&mut out, 0);
    out.push(',');
    push_decimal(&mut out, 907);
    out.push(',');
    push_decimal(&mut out, usize::MAX);
    assert_eq!(out, format!("n=0,907,{}", usize::MAX));
    assert_eq!(decimal_len(0), 1);
    assert_eq!(decimal_len(9), 1);
    assert_eq!(decimal_len(10), 2);
    assert_eq!(decimal_len(usize::MAX), usize::MAX.to_string().len());
}

#[test]
fn digits_are_the_ceiling_of_the_logarithm() {
    assert_eq!(count_digits(0), 0);
    assert_eq!(count_digits(1), 1);
    assert_eq!(count_digits(9), 1);
    assert_eq!(count_digits(10), 2);
    assert_eq!(count_digits(99), 2);
    assert_eq!(count_digits(100), 3);
    assert_eq!(count_digits(999_999_999), 9);
    assert_eq!(count_digits(1_000_000_001), 10);
}

#[test]
fn zero_padding_never_cuts() {
    let mut out = String::new();
    push_zero_padded(&mut out, 7, 3);
    out.push('|');
    push_zero_padded(&mut out, 1234, 3);
    out.push('|');
    push_zero_padded(&mut out, 0, 0);
    out.push('|');
    push_repeated(&mut out, 'x', 3);
    push_repeated(&mut out, 'y', 0);
    assert_eq!(out, "007|1234|0|xxx");
}
