use await_tree::clock::{elapsed_text, elapsed_ticks};
use await_tree::span::Span;
use await_tree::text::number_text;

#[test]
fn span_attributes() {
    let span = Span::new("fetch");
    assert_eq!(span.name(), "fetch");
    assert!(!span.is_verbose);
    assert!(!span.is_long_running);
    let verbose = span.clone().verbose();
    assert!(verbose.is_verbose && !verbose.is_long_running);
    let both = verbose.long_running();
    assert!(both.is_verbose && both.is_long_running);
    assert_eq!(both.text(), "fetch");
    let from_str = Span::from("a");
    assert_eq!(from_str.name(), "a");
    assert!(!from_str.is_verbose && !from_str.is_long_running);
    let from_string = Span::from(format!("b {}", 1));
    assert_eq!(from_string.name(), "b 1");
    assert!(!from_string.is_verbose && !from_string.is_long_running);
}

#[test]
fn elapsed_time_in_ticks() {
    assert_eq!(elapsed_ticks(3, 10), 7);
    assert_eq!(elapsed_ticks(10, 3), 0);
    assert_eq!(elapsed_text(1 << 32), "1.000s");
    assert_eq!(elapsed_text(1 << 31), "500.000ms");
    assert_eq!(elapsed_text((90 << 32) + (1 << 30)), "90.250s");
    assert_eq!(elapsed_text(0), "0.000ns");
}

#[test]
fn long_names_are_kept_whole() {
    let long = Span::new("this is a name too long to be kept inline 12345");
    assert_eq!(long.name(), "this is a name too long to be kept inline 12345");
    assert_eq!(long.clone().text(), long.text());
    assert_eq!(Span::new("").name(), "");
}

#[test]
fn numbers_in_decimal_digits() {
    assert_eq!(number_text(0), "0");
    assert_eq!(number_text(7), "7");
    assert_eq!(number_text(10), "10");
    assert_eq!(number_text(9081726354), "9081726354");
    assert_eq!(number_text(u64::MAX), "18446744073709551615");
}
