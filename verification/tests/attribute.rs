use await_tree::attribute::{instrument, ArgToken, ExpandError, InstrumentArgs, TokenKind};

fn ident(text: &str) -> ArgToken {
    ArgToken { kind: TokenKind::Ident, text: text.to_string() }
}

fn comma() -> ArgToken {
    ArgToken { kind: TokenKind::Comma, text: ",".to_string() }
}

fn other(text: &str) -> ArgToken {
    ArgToken { kind: TokenKind::Other, text: text.to_string() }
}

#[test]
fn attributes_come_before_the_format_arguments() {
    let tokens = vec![
        ident("long_running"),
        comma(),
        ident("verbose"),
        comma(),
        other("\"span_name({})\""),
        comma(),
        ident("arg1"),
    ];
    let args = InstrumentArgs::parse(&tokens);
    assert_eq!(args.method_calls, vec!["long_running".to_string(), "verbose".to_string()]);
    assert_eq!(args.format_args, Some(4));
    assert!(!args.boxed);
}

#[test]
fn boxed_is_a_keyword_and_no_method() {
    let tokens = vec![ident("boxed"), comma(), ident("verbose"), comma(), other("\"x\"")];
    let args = InstrumentArgs::parse(&tokens);
    assert_eq!(args.method_calls, vec!["verbose".to_string()]);
    assert_eq!(args.format_args, Some(4));
    assert!(args.boxed);
}

#[test]
fn arguments_may_be_attributes_alone_or_nothing() {
    let none = InstrumentArgs::parse(&vec![]);
    assert!(none.method_calls.is_empty() && none.format_args.is_none() && !none.boxed);
    let one = InstrumentArgs::parse(&vec![ident("verbose")]);
    assert_eq!(one.method_calls, vec!["verbose".to_string()]);
    assert_eq!(one.format_args, None);
    let trailing = InstrumentArgs::parse(&vec![ident("custom"), comma()]);
    assert_eq!(trailing.method_calls, vec!["custom".to_string()]);
    assert_eq!(trailing.format_args, None);
}

#[test]
fn an_identifier_before_anything_else_starts_the_format_arguments() {
    let call = InstrumentArgs::parse(&vec![ident("name"), other("(1)")]);
    assert!(call.method_calls.is_empty());
    assert_eq!(call.format_args, Some(0));
    let two = InstrumentArgs::parse(&vec![ident("verbose"), ident("boxed")]);
    assert!(two.method_calls.is_empty() && !two.boxed);
    assert_eq!(two.format_args, Some(0));
    let later = InstrumentArgs::parse(&vec![ident("verbose"), comma(), other("\"{}\""), comma(), ident("boxed")]);
    assert_eq!(later.method_calls, vec!["verbose".to_string()]);
    assert!(!later.boxed);
    assert_eq!(later.format_args, Some(2));
}

#[test]
fn only_asynchronous_functions_are_instrumented() {
    assert!(instrument(false, "f", &vec![], "{ 1 }") == Err(ExpandError::NotAsync));
}

#[test]
fn body_without_arguments_is_named_after_the_function() {
    let body = instrument(true, "simple_function", &vec![], "{ 42 }").unwrap();
    assert_eq!(
        body,
        "{ use ::await_tree::SpanExt as _; let __at_span: ::await_tree::Span = \
         ::await_tree::span!(stringify!(simple_function)); let __at_fut = async move { 42 }; \
         ::await_tree::InstrumentAwait::instrument_await(__at_fut, __at_span).await }"
    );
}

#[test]
fn body_with_attributes_and_format_arguments() {
    let tokens = vec![
        ident("boxed"),
        comma(),
        ident("long_running"),
        comma(),
        ident("verbose"),
        comma(),
        other("\"test: {}\""),
        comma(),
        ident("x"),
    ];
    let body = instrument(true, "f", &tokens, "{ x + 1 }").unwrap();
    assert_eq!(
        body,
        "{ use ::await_tree::SpanExt as _; let __at_span: ::await_tree::Span = \
         ::await_tree::span!(\"test: {}\" , x).long_running().verbose(); \
         let __at_fut = async move { x + 1 }; \
         let __at_fut = ::std::boxed::Box::pin(__at_fut); \
         ::await_tree::InstrumentAwait::instrument_await(__at_fut, __at_span).await }"
    );
}
