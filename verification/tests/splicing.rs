use moon_bundler::splice::{check_spans, push_range, substitute};

fn bytes(text: &str) -> Vec<u8> {
    text.as_bytes().to_vec()
}

#[test]
fn no_spans_leave_the_text_unchanged() {
    assert_eq!(substitute(&bytes("local x = 1"), &vec![], &vec![]), Some(bytes("local x = 1")));
    assert_eq!(substitute(&bytes(""), &vec![], &vec![]), Some(bytes("")));
}

#[test]
fn one_span_is_replaced_in_place() {
    let out = substitute(&bytes("local x = CALL -- c"), &vec![(10, 14)], &vec![bytes("(f)()")]);
    assert_eq!(out, Some(bytes("local x = (f)() -- c")));
}

#[test]
fn two_spans_keep_their_order() {
    let text = bytes("a = AAAA; b = BB; done");
    let out = substitute(&text, &vec![(4, 8), (14, 16)], &vec![bytes("1"), bytes("twenty-two")]);
    assert_eq!(out, Some(bytes("a = 1; b = twenty-two; done")));
}

#[test]
fn spans_at_both_ends_and_adjacent_spans() {
    let text = bytes("AABBCC");
    let out = substitute(
        &text,
        &vec![(0, 2), (2, 4), (4, 6)],
        &vec![bytes("x"), bytes(""), bytes("zzz")],
    );
    assert_eq!(out, Some(bytes("xzzz")));
}

#[test]
fn empty_span_inserts() {
    let out = substitute(&bytes("ab"), &vec![(1, 1)], &vec![bytes("-")]);
    assert_eq!(out, Some(bytes("a-b")));
}

#[test]
fn identical_text_elsewhere_is_not_touched() {
    let text = bytes("f(x) f(x) f(x)");
    let out = substitute(&text, &vec![(5, 9)], &vec![bytes("G")]);
    assert_eq!(out, Some(bytes("f(x) G f(x)")));
}

#[test]
fn spans_out_of_order_are_refused() {
    let text = bytes("0123456789");
    assert_eq!(substitute(&text, &vec![(5, 7), (1, 3)], &vec![bytes("a"), bytes("b")]), None);
    assert!(!check_spans(&vec![(5, 7), (1, 3)], 10));
}

#[test]
fn overlapping_spans_are_refused() {
    assert!(!check_spans(&vec![(1, 5), (4, 7)], 10));
    assert!(check_spans(&vec![(1, 5), (5, 7)], 10));
}

#[test]
fn span_behind_the_text_is_refused() {
    assert!(!check_spans(&vec![(8, 11)], 10));
    assert!(check_spans(&vec![(8, 10)], 10));
    assert!(!check_spans(&vec![(0, 1)], 0));
    assert!(check_spans(&vec![(0, 0)], 0));
}

#[test]
fn span_that_ends_before_it_begins_is_refused() {
    assert!(!check_spans(&vec![(5, 4)], 10));
}

#[test]
fn bodies_must_be_one_for_each_span() {
    let text = bytes("0123456789");
    assert_eq!(substitute(&text, &vec![(1, 3)], &vec![]), None);
    assert_eq!(substitute(&text, &vec![], &vec![bytes("a")]), None);
}

#[test]
fn length_is_text_without_spans_plus_bodies() {
    let text = bytes("0123456789");
    let out = substitute(&text, &vec![(1, 3), (6, 9)], &vec![bytes("abcd"), bytes("")]).unwrap();
    assert_eq!(out.len(), 10 - 2 - 3 + 4);
    assert_eq!(out, bytes("0abcd3459"));
}

#[test]
fn push_range_appends_the_slice() {
    let mut out = bytes("ab");
    push_range(&mut out, &bytes("0123456789"), 3, 6);
    assert_eq!(out, bytes("ab345"));
    push_range(&mut out, &bytes("0123456789"), 4, 4);
    assert_eq!(out, bytes("ab345"));
}
