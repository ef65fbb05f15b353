//! The Transform production: a parameter list `{name: Type, ...}` followed
//! by a body.
use vstd::prelude::*;
use crate::Span;
use crate::error::{Error, ErrorKind};
use crate::lexer::{Token, TokenKind, is_ws, lemma_lexed_spans, lex, lex_stopped, lexed};
use crate::parser::{Parser, spans_in_order};
use crate::strings::{Interner, Symbol};
use crate::types::Type;
use vstd::string::StringSliceAdditionalSpecFns;

verus! {

/// The type that a token names, if it names one: a type keyword names a
/// primitive type and an identifier a type left for later resolution.
pub open spec fn token_type(k: TokenKind) -> Option<Type> {
    match k {
        TokenKind::UnitType => Some(Type::Unit),
        TokenKind::IntType => Some(Type::Int),
        TokenKind::UIntType => Some(Type::UInt),
        TokenKind::BoolType => Some(Type::Bool),
        TokenKind::Identifier(s) => Some(Type::Checked(s)),
        _ => None,
    }
}

/// The type named by a token, or `None` where the token names no type.
pub fn type_of_token(k: &TokenKind) -> (r: Option<Type>)
    ensures
        r == token_type(*k),
{
    match k {
        TokenKind::UnitType => Some(Type::Unit),
        TokenKind::IntType => Some(Type::Int),
        TokenKind::UIntType => Some(Type::UInt),
        TokenKind::BoolType => Some(Type::Bool),
        TokenKind::Identifier(s) => Some(Type::Checked(*s)),
        _ => None,
    }
}

/// A function literal: its parameters, and its body. The grammar asks for a
/// further Transform (a further parameter list, for curried functions) after
/// every parameter list, so the chain of bodies has no end and parsing never
/// completes a node; the body is optional here so that a node can be built
/// at all.
pub struct Transform {
    pub parameters: Vec<(Symbol, Type)>,
    pub next_expr: Option<Box<Transform>>,
}

/// A parameter list from token `i` on, after its opening brace: the
/// parameters and the index just past the closing brace, where the tokens
/// hold one. A list holds at least one parameter: `{}` is not a parameter
/// list, as the loop that reads one asks for a name first.
pub open spec fn param_list(toks: Seq<Token>, i: int) -> Option<(Seq<(Symbol, Type)>, int)>
    decreases toks.len() - i,
{
    if i + 3 < toks.len() {
        match (toks[i].kind, token_type(toks[i + 2].kind)) {
            (TokenKind::Identifier(name), Some(ty)) => {
                if toks[i + 1].kind != TokenKind::Colon {
                    None
                } else if toks[i + 3].kind == TokenKind::ParameterClose {
                    Some((seq![(name, ty)], i + 4))
                } else if toks[i + 3].kind == TokenKind::Separator {
                    match param_list(toks, i + 4) {
                        Some((ps, j)) => Some((seq![(name, ty)] + ps, j)),
                        None => None,
                    }
                } else {
                    None
                }
            },
            _ => None,
        }
    } else {
        None
    }
}

/// A whole parameter list, braces included, from token `i` on.
pub open spec fn param_head(toks: Seq<Token>, i: int) -> Option<(Seq<(Symbol, Type)>, int)> {
    if i < toks.len() && toks[i].kind == TokenKind::ParameterOpen {
        param_list(toks, i + 1)
    } else {
        None
    }
}

/// The message for a parameter that does not start with a name.
pub open spec fn identifier_hint() -> Seq<char> {
    "expected identifier (hint: parameter format is `name: Int`)"@
}

/// The message for a parameter whose type is not a type.
pub open spec fn type_hint() -> Seq<char> {
    "expected type (hint: parameter format is `name: Type`)"@
}

/// Where the cursor stands after a parameter list that goes wrong from
/// token `i` on: at the token that does not fit, which stays unconsumed, or
/// past the last token when the input ends inside the braces.
pub open spec fn param_stop(toks: Seq<Token>, i: int) -> int
    decreases toks.len() - i,
{
    if i >= toks.len() {
        toks.len() as int
    } else if !(toks[i].kind is Identifier) {
        i
    } else if i + 1 >= toks.len() {
        toks.len() as int
    } else if toks[i + 1].kind != TokenKind::Colon {
        i + 1
    } else if i + 2 >= toks.len() {
        toks.len() as int
    } else if token_type(toks[i + 2].kind) is None {
        i + 2
    } else if i + 3 >= toks.len() {
        toks.len() as int
    } else if toks[i + 3].kind == TokenKind::Separator {
        param_stop(toks, i + 4)
    } else {
        i + 3
    }
}

/// Where the cursor stands after a parameter list at token `i` goes wrong;
/// a missing opening brace leaves it at `i`.
pub open spec fn head_stop(toks: Seq<Token>, i: int) -> int {
    if i < toks.len() && toks[i].kind == TokenKind::ParameterOpen {
        param_stop(toks, i + 1)
    } else {
        i
    }
}

/// The diagnostic `e` is the one for a parameter list that goes wrong from
/// token `i` on: end of input inside the braces leaves the brace at `open`
/// unclosed; a missing name or type gets a message; a missing colon is a
/// lookahead mismatch; anything but `,` or `}` after a parameter is not
/// handled yet.
pub open spec fn param_error(toks: Seq<Token>, i: int, end: int, open: Span, e: Error) -> bool
    decreases toks.len() - i,
{
    e.label_of() is None && param_error_kind(toks, i, end, open, e)
}

/// The kind and span part of `param_error`.
pub open spec fn param_error_kind(toks: Seq<Token>, i: int, end: int, open: Span, e: Error) -> bool
    decreases toks.len() - i,
{
    let unclosed = e.kind_of() == (ErrorKind::UnclosedDelimiter {
        delimiter: TokenKind::ParameterOpen,
        delimiter_span: open,
        expected: TokenKind::ParameterClose,
        found: None,
    }) && e.span_of() == (Span { start: end as usize, end: end as usize });
    if i >= toks.len() {
        unclosed
    } else if !(toks[i].kind is Identifier) {
        e.kind_of() matches ErrorKind::General(m) && m@ == identifier_hint() && e.span_of() == toks[i].span
    } else if i + 1 >= toks.len() {
        unclosed
    } else if toks[i + 1].kind != TokenKind::Colon {
        &&& e.kind_of() matches ErrorKind::Unexpected { expected, found } && expected@ == seq![
            TokenKind::Colon,
        ] && found == Some(toks[i + 1].kind)
        &&& e.span_of() == toks[i + 1].span
    } else if i + 2 >= toks.len() {
        unclosed
    } else if token_type(toks[i + 2].kind) is None {
        e.kind_of() matches ErrorKind::General(m) && m@ == type_hint() && e.span_of() == toks[i + 2].span
    } else if i + 3 >= toks.len() {
        unclosed
    } else if toks[i + 3].kind == TokenKind::ParameterClose {
        false
    } else if toks[i + 3].kind == TokenKind::Separator {
        param_error_kind(toks, i + 4, end, open, e)
    } else {
        e.kind_of() is NotSupported && e.span_of() == toks[i + 3].span
    }
}

/// The diagnostic `e` is the one for a parameter list that goes wrong at
/// token `i`, its opening brace included.
pub open spec fn head_error(toks: Seq<Token>, i: int, end: int, e: Error) -> bool {
    if i < toks.len() && toks[i].kind == TokenKind::ParameterOpen {
        param_error(toks, i + 1, end, toks[i].span, e)
    } else {
        &&& e.label_of() is None
        &&& e.kind_of() matches ErrorKind::Unexpected { expected, found } && expected@ == seq![
            TokenKind::ParameterOpen,
        ] && found == (if i < toks.len() {
            Some(toks[i].kind)
        } else {
            None
        })
        &&& e.span_of() == (if i < toks.len() {
            toks[i].span
        } else {
            Span { start: end as usize, end: end as usize }
        })
    }
}

/// The type named by `t`, or a diagnostic at `t` that shows the expected
/// shape of a parameter.
fn parameter_type(t: &Token) -> (r: Result<Type, Error>)
    ensures
        token_type(t.kind) matches Some(ty) ==> r == Ok::<Type, Error>(ty),
        token_type(t.kind) is None ==> (r matches Err(e) && e.kind_of() matches ErrorKind::General(m)
            && m@ == type_hint() && e.span_of() == t.span && e.label_of() is None),
{
    match type_of_token(&t.kind) {
        Some(ty) => Ok(ty),
        None => Err(Error::general(t.span, "expected type (hint: parameter format is `name: Type`)", None)),
    }
}

/// End of input inside a parameter list opened at `open`.
fn unclosed_brace(open: Span, end: usize) -> (r: Error)
    requires
        open.start <= end,
    ensures
        r.span_of() == (Span { start: end, end: end }),
        r.label_of() is None,
        r.kind_of() == (ErrorKind::UnclosedDelimiter {
            delimiter: TokenKind::ParameterOpen,
            delimiter_span: open,
            expected: TokenKind::ParameterClose,
            found: None,
        }),
{
    Error::unclosed_delimiter(
        open,
        TokenKind::ParameterOpen,
        Span { start: end, end: end },
        TokenKind::ParameterClose,
        None,
    )
}

/// Parses a parameter list `{name: Type, ...}` at the cursor and moves past
/// it. On a diagnostic the cursor has moved past the tokens read so far.
pub fn parse_parameter_list(parser: &mut Parser) -> (r: Result<Vec<(Symbol, Type)>, Error>)
    requires
        old(parser).wf(),
    ensures
        final(parser).wf(),
        final(parser).tokens() == old(parser).tokens(),
        final(parser).end() == old(parser).end(),
        param_head(old(parser).tokens(), old(parser).pos() as int) matches Some((ps, j)) ==> (
        r matches Ok(v) && v@ == ps && final(parser).pos() == j),
        param_head(old(parser).tokens(), old(parser).pos() as int) is None ==> (r matches Err(e)
            && head_error(old(parser).tokens(), old(parser).pos() as int, old(parser).end() as int, e)
            && final(parser).pos() == head_stop(old(parser).tokens(), old(parser).pos() as int)),
{
    let ghost toks = parser.tokens();
    let ghost end = parser.end() as int;
    let open = match parser.expect(&TokenKind::ParameterOpen) {
        Ok(t) => t,
        Err(e) => return Err(e),
    };
    let ghost open_at = parser.pos() as int;
    assert(open == toks[open_at - 1]);
    assert(param_head(toks, open_at - 1) == param_list(toks, open_at));
    let mut parameters: Vec<(Symbol, Type)> = Vec::new();
    loop
        invariant_except_break
            param_list(toks, open_at) == (match param_list(toks, parser.pos() as int) {
                Some((ps, j)) => Some((parameters@ + ps, j)),
                None => None,
            }),
            param_stop(toks, open_at) == param_stop(toks, parser.pos() as int),
            forall|e: Error|
                param_error(toks, open_at, end, open.span, e) == param_error(
                    toks,
                    parser.pos() as int,
                    end,
                    open.span,
                    e,
                ),
        invariant
            parser.wf(),
            parser.tokens() == toks,
            parser.end() == end,
            toks == old(parser).tokens(),
            end == old(parser).end(),
            1 <= open_at <= parser.pos(),
            open_at == old(parser).pos() + 1,
            open == toks[open_at - 1],
            open.kind == TokenKind::ParameterOpen,
        ensures
            parser.wf(),
            parser.tokens() == toks,
            parser.end() == end,
            param_list(toks, open_at) == Some((parameters@, parser.pos() as int)),
        decreases toks.len() - parser.pos(),
    {
        let ghost p = parser.pos() as int;
        let ghost before = parameters@;
        proof {
            parser.lemma_spans();
            assert(toks[open_at - 1].span.start <= toks[open_at - 1].span.end <= end);
        }
        let unclosed = unclosed_brace(open.span, parser.source_len());
        let name = match parser.peek() {
            None => {
                assert(param_error(toks, p, end, open.span, unclosed));
                assert(param_error(toks, open_at, end, open.span, unclosed));
                assert(head_error(toks, open_at - 1, end, unclosed));
                return Err(unclosed);
            },
            Some(t) => match t.kind {
                TokenKind::Identifier(name) => name,
                _ => {
                    let e = Error::general(
                        t.span,
                        "expected identifier (hint: parameter format is `name: Int`)",
                        None,
                    );
                    assert(param_stop(toks, p) == p);
                    assert(param_error(toks, p, end, open.span, e));
                assert(param_error(toks, open_at, end, open.span, e));
                assert(head_error(toks, open_at - 1, end, e));
                    return Err(e);
                },
            },
        };
        parser.advance();
        if parser.at_end() {
            assert(param_error(toks, p, end, open.span, unclosed));
                assert(param_error(toks, open_at, end, open.span, unclosed));
                assert(head_error(toks, open_at - 1, end, unclosed));
            return Err(unclosed);
        }
        match parser.expect(&TokenKind::Colon) {
            Ok(_) => {},
            Err(e) => {
                assert(param_error(toks, p, end, open.span, e));
                assert(param_error(toks, open_at, end, open.span, e));
                assert(head_error(toks, open_at - 1, end, e));
                return Err(e);
            },
        }
        if parser.at_end() {
            assert(param_error(toks, p, end, open.span, unclosed));
                assert(param_error(toks, open_at, end, open.span, unclosed));
                assert(head_error(toks, open_at - 1, end, unclosed));
            return Err(unclosed);
        }
        let ty = match parser.expect_with(|t: &Token| -> (r: Result<Type, Error>)
            ensures
                token_type(t.kind) matches Some(ty) ==> r == Ok::<Type, Error>(ty),
                token_type(t.kind) is None ==> (r matches Err(e) && e.kind_of() matches ErrorKind::General(
                    m,
                ) && m@ == type_hint() && e.span_of() == t.span && e.label_of() is None),
            { parameter_type(t) }) {
            Ok(ty) => ty,
            Err(e) => {
                assert(param_error(toks, p, end, open.span, e));
                assert(param_error(toks, open_at, end, open.span, e));
                assert(head_error(toks, open_at - 1, end, e));
                return Err(e);
            },
        };
        assert(ty == token_type(toks[p + 2].kind)->Some_0);
        parameters.push((name, ty));
        match parser.peek() {
            None => {
                assert(param_error(toks, p, end, open.span, unclosed));
                assert(param_error(toks, open_at, end, open.span, unclosed));
                assert(head_error(toks, open_at - 1, end, unclosed));
                return Err(unclosed);
            },
            Some(t) => match t.kind {
                TokenKind::ParameterClose => {
                    parser.advance();
                    assert(param_list(toks, p) == Some((seq![(name, ty)], p + 4)));
                    assert(parameters@ =~= before + seq![(name, ty)]);
                    break;
                },
                TokenKind::Separator => {
                    parser.advance();
                    assert(param_stop(toks, p) == param_stop(toks, p + 4));
                    assert(forall|e: Error|
                        param_error(toks, p, end, open.span, e) == param_error(
                            toks,
                            p + 4,
                            end,
                            open.span,
                            e,
                        ));
                    assert(forall|e: Error|
                        param_error_kind(toks, p, end, open.span, e) == param_error_kind(
                            toks,
                            p + 4,
                            end,
                            open.span,
                            e,
                        ));
                    assert(parameters@ =~= before + seq![(name, ty)]);
                    assert(forall|ps: Seq<(Symbol, Type)>| #![auto] before + (seq![(name, ty)] + ps) =~= parameters@ + ps);
                },
                _ => {
                    let e = Error::not_supported(t.span, "only `,` or `}` may follow a parameter");
                    assert(param_error(toks, p, end, open.span, e));
                assert(param_error(toks, open_at, end, open.span, e));
                assert(head_error(toks, open_at - 1, end, e));
                    return Err(e);
                },
            },
        }
    }
    Ok(parameters)
}


proof fn lemma_param_list_advances(toks: Seq<Token>, i: int)
    requires
        param_list(toks, i) is Some,
    ensures
        param_list(toks, i)->Some_0.1 >= i + 4,
        param_list(toks, i)->Some_0.1 <= toks.len(),
    decreases toks.len() - i,
{
    if toks[i + 3].kind == TokenKind::Separator {
        lemma_param_list_advances(toks, i + 4);
    }
}

/// The diagnostic `e` is the one for a Transform at token `i`: the first
/// parameter list, along the chain of bodies, that goes wrong.
pub open spec fn transform_error(toks: Seq<Token>, i: int, end: int, e: Error) -> bool
    decreases toks.len() - i,
{
    match param_head(toks, i) {
        None => head_error(toks, i, end, e),
        Some((_, j)) => if i < j <= toks.len() {
            transform_error(toks, j, end, e)
        } else {
            false
        },
    }
}

/// Where the cursor stands after a Transform at token `i` fails: where the
/// first parameter list along the chain of bodies that goes wrong stops.
pub open spec fn transform_stop(toks: Seq<Token>, i: int) -> int
    decreases toks.len() - i,
{
    match param_head(toks, i) {
        None => head_stop(toks, i),
        Some((_, j)) => if i < j <= toks.len() {
            transform_stop(toks, j)
        } else {
            i
        },
    }
}

impl Transform {
    /// Parses a Transform at the cursor: a parameter list, then its body,
    /// which is again a Transform. As that chain has no end, every finite
    /// input ends in a diagnostic: the one of the first parameter list along
    /// the chain that does not parse, which at the end of the tokens is a
    /// lookahead mismatch for the opening brace. The cursor is left on the
    /// token that does not fit, unconsumed, so that a second attempt sees it
    /// again; a missing opening brace leaves the cursor where it was.
    pub fn try_from(parser: &mut Parser) -> (r: Result<Transform, Error>)
        requires
            old(parser).wf(),
        ensures
            final(parser).wf(),
            final(parser).tokens() == old(parser).tokens(),
            final(parser).end() == old(parser).end(),
            r matches Err(e) && transform_error(
                old(parser).tokens(),
                old(parser).pos() as int,
                old(parser).end() as int,
                e,
            ),
            final(parser).pos() == transform_stop(old(parser).tokens(), old(parser).pos() as int),
        decreases old(parser).tokens().len() - old(parser).pos(),
    {
        let ghost i = parser.pos() as int;
        let parameters = match parse_parameter_list(parser) {
            Ok(ps) => ps,
            Err(e) => return Err(e),
        };
        proof {
            lemma_param_list_advances(parser.tokens(), i + 1);
            parser.lemma_spans();
        }
        let body = match Transform::try_from(parser) {
            Ok(t) => t,
            Err(e) => return Err(e),
        };
        Ok(Transform { parameters, next_expr: Some(Box::new(body)) })
    }

    /// Normalises the node in place. No reduction is defined for this
    /// production yet: the node is left as it is and the result says so.
    pub fn try_reduce(&mut self) -> (r: Result<(), Error>)
        ensures
            *final(self) == *old(self),
            r matches Err(e) && e.kind_of() is NotSupported,
    {
        Err(Error::not_supported(Span { start: 0, end: 0 }, "reduction of a Transform"))
    }
}


/// Lexes `src` and parses it as a Transform. Every outcome is a diagnostic
/// (see `Transform::try_from`): the lexer's, at the place where lexing
/// stopped; `NoTopLevelExpr` at `0..0` when the source holds no token; or
/// the parser's for the tokens.
pub fn parse(src: &str, interner: &mut Interner) -> (r: Result<Transform, Error>)
    requires
        old(interner).wf(),
    ensures
        final(interner).wf(),
        r matches Err(e) && {
            ||| lex_stopped(src.spec_bytes(), final(interner)@, e)
            ||| (e.kind_of() is NoTopLevelExpr && e.span_of() == (Span { start: 0, end: 0 }) && lexed(
                src.spec_bytes(),
                final(interner)@,
                Seq::empty(),
            ))
            ||| exists|toks: Seq<Token>|
                lexed(src.spec_bytes(), final(interner)@, toks) && toks.len() > 0
                    && #[trigger] transform_error(toks, 0, src.spec_bytes().len() as int, e)
        },
        (forall|p: int| 0 <= p < src.spec_bytes().len() ==> is_ws(#[trigger] src.spec_bytes()[p]))
            ==> (r matches Err(e) && e.kind_of() is NoTopLevelExpr && e.span_of() == (Span {
            start: 0,
            end: 0,
        })),
{
    let toks = match lex(src, interner) {
        Ok(toks) => toks,
        Err(e) => return Err(e),
    };
    let ghost b = src.spec_bytes();
    if toks.len() == 0 {
        assert(toks@ =~= Seq::<Token>::empty());
        return Err(Error::no_top_level_expr());
    }
    proof {
        lemma_lexed_spans(b, interner@, toks@);
        assert(spans_in_order(toks@, src.spec_bytes().len()));
    }
    let n = src.as_bytes().len();
    let mut parser = Parser::new(toks, n);
    let r = Transform::try_from(&mut parser);
    proof {
        let e = r->Err_0;
        assert(lexed(b, interner@, toks@) && toks@.len() > 0 && transform_error(
            toks@,
            0,
            b.len() as int,
            e,
        ));
    }
    r
}

} // verus!
