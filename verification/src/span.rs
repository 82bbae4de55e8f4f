//! Span values: the label of one suspension point and its attributes.

use vstd::prelude::*;
use flexstr::SharedStr;

verus! {

/// `flexstr::FlexStr`: a string that is cheap to clone. `SharedStr` is the
/// form of it that shares its storage between threads.
#[verifier::external_type_specification]
#[verifier::external_body]
#[verifier::reject_recursive_types(HEAP)]
pub struct ExFlexStr<const SIZE: usize, const PAD1: usize, const PAD2: usize, HEAP>(flexstr::FlexStr<SIZE, PAD1, PAD2, HEAP>);

/// The characters that a shared string holds.
pub uninterp spec fn shared_text(s: SharedStr) -> Seq<char>;

/// `SharedStr::from_ref`: a shared string that holds the characters of `text`.
#[verifier::external_body]
pub(crate) fn shared_from_ref(text: &str) -> (shared: SharedStr)
    ensures
        shared_text(shared) == text@,
{
    SharedStr::from_ref(text)
}

/// `FlexStr::as_str`: the characters of a shared string as a string slice.
#[verifier::external_body]
pub(crate) fn shared_as_str(shared: &SharedStr) -> (text: &str)
    ensures
        text@ == shared_text(*shared),
{
    shared.as_str()
}

/// `Clone` of a shared string: the same string, sharing its storage.
#[verifier::external_body]
pub(crate) fn shared_clone(shared: &SharedStr) -> (copy: SharedStr)
    ensures
        copy == *shared,
{
    shared.clone()
}

/// `std::fmt::Arguments`: format arguments, as `format_args!` makes them.
#[verifier::external_type_specification]
#[verifier::external_body]
pub struct ExArguments<'a>(core::fmt::Arguments<'a>);

/// What the standard formatter writes for format arguments.
pub uninterp spec fn formatted_text(args: std::fmt::Arguments<'_>) -> Seq<char>;

/// The literal of format arguments that hold a literal alone, without
/// interpolation; nothing for others.
pub uninterp spec fn literal_text(args: std::fmt::Arguments<'_>) -> Option<Seq<char>>;

/// `Arguments::as_str`: the literal of format arguments that hold a literal
/// alone, and nothing for others. The literal is the formatted text.
#[verifier::external_body]
fn literal_of<'a>(args: &std::fmt::Arguments<'a>) -> (literal: Option<&'static str>)
    ensures
        literal is Some == literal_text(*args) is Some,
        literal is Some ==> literal->Some_0@ == literal_text(*args)->Some_0,
        literal is Some ==> literal->Some_0@ == formatted_text(*args),
{
    args.as_str()
}

/// `flexstr::flex_fmt`: format arguments written out into a shared string, as
/// the standard formatter writes them.
#[verifier::external_body]
fn shared_format<'a>(args: std::fmt::Arguments<'a>) -> (shared: SharedStr)
    ensures
        shared_text(shared) == formatted_text(args),
{
    flexstr::flex_fmt(args)
}

/// A span named by format arguments, with both attributes unset. A literal
/// without interpolation is taken as it is; anything else is formatted.
pub fn fmt_span<'a>(args: std::fmt::Arguments<'a>) -> (span: Span)
    ensures
        !span.is_verbose,
        !span.is_long_running,
        span.name_text() == formatted_text(args),
        literal_text(args) is Some ==> span.name_text() == literal_text(args)->Some_0,
{
    let name = match literal_of(&args) {
        Some(literal) => shared_from_ref(literal),
        None => shared_format(args),
    };
    Span { name, is_verbose: false, is_long_running: false }
}

/// A cheaply cloneable label for a suspension point, with its two attribute bits.
#[derive(Debug)]
pub struct Span {
    pub name: SharedStr,
    pub is_verbose: bool,
    pub is_long_running: bool,
}

impl Clone for Span {
    fn clone(&self) -> (copy: Span)
        ensures
            copy == *self,
    {
        Span { name: shared_clone(&self.name), is_verbose: self.is_verbose, is_long_running: self.is_long_running }
    }
}

impl From<&str> for Span {
    /// A span with the given name and both attributes unset.
    fn from(name: &str) -> (span: Span)
        ensures
            span.name_text() == name@,
            !span.is_verbose,
            !span.is_long_running,
    {
        Span::new(name)
    }
}

impl From<String> for Span {
    /// A span with the given name and both attributes unset.
    fn from(name: String) -> (span: Span)
        ensures
            span.name_text() == name@,
            !span.is_verbose,
            !span.is_long_running,
    {
        Span::new(name.as_str())
    }
}

impl vstd::std_specs::convert::FromSpecImpl<String> for Span {
    open spec fn obeys_from_spec() -> bool {
        false
    }

    open spec fn from_spec(name: String) -> Span {
        arbitrary()
    }
}

impl vstd::std_specs::convert::FromSpecImpl<&str> for Span {
    open spec fn obeys_from_spec() -> bool {
        false
    }

    open spec fn from_spec(name: &str) -> Span {
        arbitrary()
    }
}

impl Span {
    /// The characters of the name.
    pub open spec fn name_text(&self) -> Seq<char> {
        shared_text(self.name)
    }

    /// A span with the given name and both attributes unset.
    pub fn new(name: &str) -> (span: Span)
        ensures
            span.name_text() == name@,
            !span.is_verbose,
            !span.is_long_running,
    {
        Span { name: shared_from_ref(name), is_verbose: false, is_long_running: false }
    }

    /// The same span, marked verbose: it is shown only where the context is verbose.
    pub fn verbose(self) -> (span: Span)
        ensures
            span.name == self.name,
            span.is_verbose,
            span.is_long_running == self.is_long_running,
    {
        Span { name: self.name, is_verbose: true, is_long_running: self.is_long_running }
    }

    /// The same span, marked long-running: it is never flagged as stale.
    pub fn long_running(self) -> (span: Span)
        ensures
            span.name == self.name,
            span.is_verbose == self.is_verbose,
            span.is_long_running,
    {
        Span { name: self.name, is_verbose: self.is_verbose, is_long_running: true }
    }

    /// The name of the span.
    pub fn name(&self) -> (name: &str)
        ensures
            name@ == self.name_text(),
    {
        shared_as_str(&self.name)
    }

    /// The text of the span when shown: its name alone.
    pub fn text(&self) -> (text: String)
        ensures
            text@ == self.name_text(),
    {
        shared_as_str(&self.name).to_owned()
    }
}

/// A span together with the clock reading taken when it entered the tree.
#[derive(Debug)]
pub struct SpanNode {
    pub span: Span,
    pub start_time: u64,
}

impl SpanNode {
    /// A node for `span`, started at the present reading of the clock.
    pub fn new(span: Span) -> (node: SpanNode)
        ensures
            node.span == span,
    {
        SpanNode { span, start_time: crate::clock::clock_now() }
    }
}

impl Clone for SpanNode {
    fn clone(&self) -> (copy: SpanNode)
        ensures
            copy == *self,
    {
        SpanNode { span: self.span.clone(), start_time: self.start_time }
    }
}

} // verus!
