use tbunread::decimal::{push_decimal, render_line};

#[test]
fn numbers_are_joined_by_single_spaces() {
    assert_eq!(render_line(&vec![0, 3, 12]), "0 3 12");
}

#[test]
fn empty_list_is_an_empty_line() {
    assert_eq!(render_line(&vec![]), "");
}

#[test]
fn one_number_has_no_space() {
    assert_eq!(render_line(&vec![7]), "7");
    assert_eq!(render_line(&vec![0]), "0");
}

#[test]
fn push_decimal_appends() {
    let mut out = String::from("n=");
    push_decimal(&mut out, 0);
    assert_eq!(out, "n=0");
    push_decimal(&mut out, 9);
    push_decimal(&mut out, 10);
    push_decimal(&mut out, 1002003);
    assert_eq!(out, "n=09101002003");
}

#[test]
fn largest_number_is_written_out() {
    let mut out = String::new();
    push_decimal(&mut out, usize::MAX);
    assert_eq!(out, usize::MAX.to_string());
    assert_eq!(render_line(&vec![usize::MAX, usize::MAX]), format!("{} {}", usize::MAX, usize::MAX));
}

#[test]
fn decimal_agrees_with_the_standard_formatter() {
    let mut n: usize = 0;
    while n < 200_000 {
        let mut out = String::new();
        push_decimal(&mut out, n);
        assert_eq!(out, n.to_string());
        n += 37;
    }
    let mut p: usize = 1;
    loop {
        for k in [p - 1, p, p + 1] {
            let mut out = String::new();
            push_decimal(&mut out, k);
            assert_eq!(out, k.to_string());
        }
        match p.checked_mul(10) {
            Some(next) => p = next,
            None => break,
        }
    }
}
