use hl_capture::command::Args;
use hl_capture::manual_free::ManualFree;
use hl_capture::utils::parse::{parse_i32, parse_usize};
use hl_capture::utils::MaybeUnavailable;

#[test]
fn maybe_unavailable_reset_returns_to_not_checked() {
    let mut m = MaybeUnavailable::Available(5);
    m.reset();
    assert!(m.is_not_checked());
    assert!(!m.is_available());
}

#[test]
fn maybe_unavailable_available_gives_value_only_when_available() {
    assert_eq!(MaybeUnavailable::Available(3).available(), Some(3));
    assert_eq!(MaybeUnavailable::<i32>::Unavailable.available(), None);
    assert_eq!(MaybeUnavailable::<i32>::NotChecked.available(), None);
}

#[test]
fn maybe_unavailable_take_leaves_not_checked() {
    let mut m = MaybeUnavailable::Available(String::from("queue"));
    assert_eq!(m.take(), Some(String::from("queue")));
    assert!(m.is_not_checked());
    assert_eq!(m.take(), None);
    assert!(m.is_not_checked());
}

#[test]
fn maybe_unavailable_take_keeps_unavailable() {
    let mut m = MaybeUnavailable::<u8>::Unavailable;
    assert_eq!(m.take(), None);
    assert!(!m.is_not_checked());
    assert!(!m.is_available());
    assert_eq!(m.available(), None);
}

#[test]
fn maybe_unavailable_unwrap_moves_value_out() {
    assert_eq!(MaybeUnavailable::Available(vec![1u8, 2]).unwrap(), vec![1u8, 2]);
}

#[test]
fn maybe_unavailable_as_mut_modifies_in_place() {
    let mut m = MaybeUnavailable::Available(10);
    if let MaybeUnavailable::Available(x) = m.as_mut() {
        *x += 1;
    }
    assert_eq!(m.available(), Some(11));
    let mut n = MaybeUnavailable::<i32>::Unavailable;
    assert!(!n.as_mut().is_available());
}

#[test]
fn maybe_unavailable_from_check_result_round_trips() {
    assert_eq!(MaybeUnavailable::from_check_result(Some(7)).available(), Some(7));
    let none = MaybeUnavailable::<i32>::from_check_result(None);
    assert!(!none.is_available());
    assert!(!none.is_not_checked());
}

#[test]
fn manual_free_holds_value_until_freed() {
    let mut m = ManualFree::new(vec![1, 2, 3]);
    assert!(!m.is_freed());
    assert_eq!(m.deref(), &vec![1, 2, 3]);
    m.deref_mut().push(4);
    assert_eq!(m.deref().len(), 4);
    m.free();
    assert!(m.is_freed());
    m.free();
    assert!(m.is_freed());
}

#[test]
fn args_yield_each_index_once_in_order() {
    let mut args = Args::new(3);
    assert_eq!(args.len(), 3);
    assert_eq!(args.next(), Some(0));
    assert_eq!(args.len(), 2);
    assert_eq!(args.next(), Some(1));
    assert_eq!(args.next(), Some(2));
    assert_eq!(args.len(), 0);
    assert_eq!(args.next(), None);
    assert_eq!(args.next(), None);
}

#[test]
fn args_without_arguments_yield_nothing() {
    let mut args = Args::new(0);
    assert_eq!(args.len(), 0);
    assert_eq!(args.next(), None);
}

#[test]
fn parse_i32_accepts_what_std_accepts() {
    for s in ["60", "-5", "+7", "0", "-0", "007", "2147483647", "-2147483648", "", "-", "+",
              "2147483648", "-2147483649", "12a", " 1", "1 ", "+-1", "١٢", "99999999999999999999"] {
        assert_eq!(parse_i32(s), s.parse::<i32>().ok(), "input {:?}", s);
    }
}

#[test]
fn parse_usize_accepts_what_std_accepts() {
    for s in ["256", "+3", "0", "-0", "-1", "", "+", "18446744073709551615",
              "18446744073709551616", "4x"] {
        assert_eq!(parse_usize(s), s.parse::<usize>().ok(), "input {:?}", s);
    }
}

#[test]
fn args_whole_run_hands_out_each_index_once_in_order() {
    let mut args = Args::new(5);
    let mut seen = Vec::new();
    while let Some(index) = args.next() {
        seen.push(index);
    }
    assert_eq!(seen, vec![0, 1, 2, 3, 4]);
}
