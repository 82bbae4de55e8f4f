//! The `instrument` attribute: how its arguments are read, and the function
//! body that it puts in the place of the body of an asynchronous function.
//!
//! The arguments are a run of attributes, each an identifier followed by a comma
//! or by the end, and after them the format arguments of the span's name. The
//! attribute `boxed` asks for the body to be boxed and pinned; every other
//! attribute becomes a method called on the span.

use vstd::prelude::*;

verus! {

/// The kinds of token that the reading of the arguments tells apart.
#[derive(Debug, Clone, Copy, PartialEq, Eq, Structural)]
pub enum TokenKind {
    Ident,
    Comma,
    Other,
}

/// One token of the arguments, with its text.
pub struct ArgToken {
    pub kind: TokenKind,
    pub text: String,
}

/// The arguments as read: the methods to call on the span, in order; where the
/// format arguments start, if there are any; and whether the body is boxed.
pub struct InstrumentArgs {
    pub method_calls: Vec<String>,
    pub format_args: Option<usize>,
    pub boxed: bool,
}

/// Why the attribute cannot be applied.
#[derive(Debug, Clone, Copy, PartialEq, Eq, Structural)]
pub enum ExpandError {
    /// The function is not asynchronous.
    NotAsync,
}

/// The token at `at` is an attribute: an identifier followed by a comma or by
/// the end.
pub open spec fn is_attribute_at(tokens: Seq<ArgToken>, at: int) -> bool {
    &&& 0 <= at < tokens.len()
    &&& tokens[at].kind == TokenKind::Ident
    &&& (at + 1 == tokens.len() || tokens[at + 1].kind == TokenKind::Comma)
}

/// The place behind the attribute at `at` and its comma.
pub open spec fn after_attribute(tokens: Seq<ArgToken>, at: int) -> int {
    if at + 1 < tokens.len() {
        at + 2
    } else {
        at + 1
    }
}

/// Where the run of attributes that starts at `at` ends.
pub open spec fn attributes_end(tokens: Seq<ArgToken>, at: int) -> int
    decreases tokens.len() - at,
{
    if is_attribute_at(tokens, at) {
        attributes_end(tokens, after_attribute(tokens, at))
    } else {
        at
    }
}

/// The attributes of the run that starts at `at`, but for `boxed`, in order.
pub open spec fn method_names(tokens: Seq<ArgToken>, at: int) -> Seq<Seq<char>>
    decreases tokens.len() - at,
{
    if is_attribute_at(tokens, at) {
        let rest = method_names(tokens, after_attribute(tokens, at));
        if tokens[at].text@ == "boxed"@ {
            rest
        } else {
            seq![tokens[at].text@] + rest
        }
    } else {
        Seq::empty()
    }
}

/// Whether `boxed` is among the attributes of the run that starts at `at`.
pub open spec fn has_boxed(tokens: Seq<ArgToken>, at: int) -> bool
    decreases tokens.len() - at,
{
    is_attribute_at(tokens, at) && (tokens[at].text@ == "boxed"@ || has_boxed(tokens, after_attribute(tokens, at)))
}

/// The texts of a list of strings.
pub open spec fn texts_of(strings: Seq<String>) -> Seq<Seq<char>> {
    Seq::new(strings.len(), |i: int| strings[i]@)
}

/// The tokens from `from` on, with a space between each two.
pub open spec fn joined_text(tokens: Seq<ArgToken>, from: int) -> Seq<char>
    decreases tokens.len() - from,
{
    if from < 0 || from >= tokens.len() {
        Seq::empty()
    } else if from + 1 == tokens.len() {
        tokens[from].text@
    } else {
        tokens[from].text@ + " "@ + joined_text(tokens, from + 1)
    }
}

/// A call of each method of `names`, in order.
pub open spec fn chain_text(names: Seq<Seq<char>>) -> Seq<char>
    decreases names.len(),
{
    if names.len() == 0 {
        Seq::empty()
    } else {
        chain_text(names.drop_last()) + "."@ + names.last() + "()"@
    }
}

/// The expression that makes the span: the span macro on the format arguments,
/// or on the function's name where there are none, and then the method calls.
pub open spec fn span_text(tokens: Seq<ArgToken>, fn_name: Seq<char>) -> Seq<char> {
    "::await_tree::span!("@ + (if attributes_end(tokens, 0) < tokens.len() {
        joined_text(tokens, attributes_end(tokens, 0))
    } else {
        "stringify!("@ + fn_name + ")"@
    }) + ")"@ + chain_text(method_names(tokens, 0))
}

/// The body that takes the place of `block`.
pub open spec fn body_text(tokens: Seq<ArgToken>, fn_name: Seq<char>, block: Seq<char>) -> Seq<char> {
    "{ use ::await_tree::SpanExt as _; let __at_span: ::await_tree::Span = "@ + span_text(tokens, fn_name)
        + "; let __at_fut = async move "@ + block + "; "@ + (if has_boxed(tokens, 0) {
        "let __at_fut = ::std::boxed::Box::pin(__at_fut); "@
    } else {
        Seq::empty()
    }) + "::await_tree::InstrumentAwait::instrument_await(__at_fut, __at_span).await }"@
}

/// Whether the token at `at` is an attribute.
fn attribute_here(tokens: &Vec<ArgToken>, at: usize) -> (yes: bool)
    ensures
        yes == is_attribute_at(tokens@, at as int),
{
    at < tokens.len() && tokens[at].kind == TokenKind::Ident && (at + 1 == tokens.len() || tokens[at
        + 1].kind == TokenKind::Comma)
}

impl InstrumentArgs {
    /// Reads the arguments of the attribute.
    pub fn parse(tokens: &Vec<ArgToken>) -> (args: InstrumentArgs)
        ensures
            texts_of(args.method_calls@) == method_names(tokens@, 0),
            args.boxed == has_boxed(tokens@, 0),
            0 <= attributes_end(tokens@, 0) <= tokens@.len(),
            args.format_args == (if attributes_end(tokens@, 0) < tokens@.len() {
                Some(attributes_end(tokens@, 0) as usize)
            } else {
                None
            }),
    {
        let word = "boxed".to_owned();
        let len = tokens.len();
        let mut method_calls: Vec<String> = Vec::new();
        let mut boxed = false;
        let mut at: usize = 0;
        let mut more = attribute_here(tokens, at);
        proof {
            assert(texts_of(method_calls@) =~= Seq::<Seq<char>>::empty());
            assert(texts_of(method_calls@) + method_names(tokens@, 0) =~= method_names(tokens@, 0));
        }
        while more
            invariant
                0 <= at <= tokens@.len(),
                len == tokens@.len(),
                more == is_attribute_at(tokens@, at as int),
                word@ == "boxed"@,
                attributes_end(tokens@, 0) == attributes_end(tokens@, at as int),
                method_names(tokens@, 0) == texts_of(method_calls@) + method_names(tokens@, at as int),
                has_boxed(tokens@, 0) == (boxed || has_boxed(tokens@, at as int)),
            decreases tokens@.len() - at,
        {
            let ghost before = texts_of(method_calls@);
            let ghost next = after_attribute(tokens@, at as int);
            assert(is_attribute_at(tokens@, at as int));
            if tokens[at].text == word {
                boxed = true;
            } else {
                method_calls.push(tokens[at].text.clone());
                proof {
                    assert(texts_of(method_calls@) =~= before + seq![tokens@[at as int].text@]);
                    assert(before + (seq![tokens@[at as int].text@] + method_names(tokens@, next)) =~= (before
                        + seq![tokens@[at as int].text@]) + method_names(tokens@, next));
                }
            }
            at = if at + 1 < len {
                at + 2
            } else {
                at + 1
            };
            more = attribute_here(tokens, at);
        }
        proof {
            assert(method_names(tokens@, at as int) =~= Seq::<Seq<char>>::empty());
            assert(texts_of(method_calls@) + Seq::<Seq<char>>::empty() =~= texts_of(method_calls@));
        }
        InstrumentArgs { method_calls, format_args: if at < tokens.len() { Some(at) } else { None }, boxed }
    }
}

/// Appends the tokens from `from` on to `out`, with a space between each two.
fn push_joined(out: &mut String, tokens: &Vec<ArgToken>, from: usize)
    ensures
        final(out)@ == old(out)@ + joined_text(tokens@, from as int),
    decreases tokens@.len() - from,
{
    if from >= tokens.len() {
        proof {
            assert(out@ =~= old(out)@ + joined_text(tokens@, from as int));
        }
    } else if from + 1 == tokens.len() {
        out.push_str(tokens[from].text.as_str());
    } else {
        out.push_str(tokens[from].text.as_str());
        out.push_str(" ");
        push_joined(out, tokens, from + 1);
        proof {
            assert(out@ =~= old(out)@ + joined_text(tokens@, from as int));
        }
    }
}

/// Appends a call of each method of `names` to `out`.
fn push_chain(out: &mut String, names: &Vec<String>)
    ensures
        final(out)@ == old(out)@ + chain_text(texts_of(names@)),
{
    let ghost before = out@;
    let mut i: usize = 0;
    proof {
        assert(texts_of(names@).take(0) =~= Seq::<Seq<char>>::empty());
        assert(out@ =~= before + chain_text(texts_of(names@).take(0)));
    }
    while i < names.len()
        invariant
            0 <= i <= names.len(),
            out@ == before + chain_text(texts_of(names@).take(i as int)),
        decreases names.len() - i,
    {
        out.push_str(".");
        out.push_str(names[i].as_str());
        out.push_str("()");
        proof {
            let upto = texts_of(names@).take(i as int + 1);
            assert(upto.drop_last() =~= texts_of(names@).take(i as int));
            assert(upto.last() == names@[i as int]@);
            assert(out@ =~= before + chain_text(upto));
        }
        i += 1;
    }
    proof {
        assert(texts_of(names@).take(names@.len() as int) =~= texts_of(names@));
    }
}

/// The expression that makes the span of the function `fn_name`.
fn span_expression(fn_name: &str, tokens: &Vec<ArgToken>, args: &InstrumentArgs) -> (text: String)
    requires
        texts_of(args.method_calls@) == method_names(tokens@, 0),
        args.format_args == (if attributes_end(tokens@, 0) < tokens@.len() {
            Some(attributes_end(tokens@, 0) as usize)
        } else {
            None
        }),
        0 <= attributes_end(tokens@, 0) <= tokens@.len(),
    ensures
        text@ == span_text(tokens@, fn_name@),
{
    let len = tokens.len();
    let mut out = String::new();
    out.push_str("::await_tree::span!(");
    match args.format_args {
        Some(from) => {
            push_joined(&mut out, tokens, from);
        },
        None => {
            out.push_str("stringify!(");
            out.push_str(fn_name);
            out.push_str(")");
            proof {
                assert(out@ =~= "::await_tree::span!("@ + ("stringify!("@ + fn_name@ + ")"@));
            }
        },
    }
    let ghost inner = if attributes_end(tokens@, 0) < tokens@.len() {
        joined_text(tokens@, attributes_end(tokens@, 0))
    } else {
        "stringify!("@ + fn_name@ + ")"@
    };
    assert(out@ =~= "::await_tree::span!("@ + inner);
    out.push_str(")");
    push_chain(&mut out, &args.method_calls);
    proof {
        assert(out@ =~= "::await_tree::span!("@ + inner + ")"@ + chain_text(method_names(tokens@, 0)));
    }
    out
}

/// The body that the attribute puts in the place of `block`, the body of the
/// function `fn_name`. The attribute applies to asynchronous functions alone.
pub fn instrument(is_async: bool, fn_name: &str, tokens: &Vec<ArgToken>, block: &str) -> (body: Result<String, ExpandError>)
    ensures
        is_async ==> body is Ok && body->Ok_0@ == body_text(tokens@, fn_name@, block@),
        !is_async ==> body == Err::<String, ExpandError>(ExpandError::NotAsync),
{
    if !is_async {
        return Err(ExpandError::NotAsync);
    }
    let args = InstrumentArgs::parse(tokens);
    let span = span_expression(fn_name, tokens, &args);
    let mut out = String::new();
    out.push_str("{ use ::await_tree::SpanExt as _; let __at_span: ::await_tree::Span = ");
    out.push_str(span.as_str());
    out.push_str("; let __at_fut = async move ");
    out.push_str(block);
    out.push_str("; ");
    if args.boxed {
        out.push_str("let __at_fut = ::std::boxed::Box::pin(__at_fut); ");
    }
    out.push_str("::await_tree::InstrumentAwait::instrument_await(__at_fut, __at_span).await }");
    proof {
        assert(out@ =~= body_text(tokens@, fn_name@, block@));
    }
    Ok(out)
}

} // verus!
