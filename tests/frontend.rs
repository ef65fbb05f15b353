use algo::error::{Error, ErrorKind};
use algo::lexer::{lex, Token, TokenKind};
use algo::operator::Operator;
use algo::parser::Parser;
use algo::strings::{Interner, Symbol};
use algo::transform::{parse, parse_parameter_list, type_of_token, Transform};
use algo::types::Type;
use algo::Span;

fn kinds(toks: &[Token]) -> Vec<TokenKind> {
    toks.iter().map(|t| t.kind).collect()
}

fn spans(toks: &[Token]) -> Vec<(usize, usize)> {
    toks.iter().map(|t| (t.span.start, t.span.end)).collect()
}

#[test]
fn operator_classes() {
    assert!(Operator::Exp.is_arithmetic());
    assert!(Operator::BitOr.is_arithmetic());
    assert!(!Operator::Eq.is_arithmetic());
    assert!(!Operator::Assign.is_arithmetic());
    assert!(Operator::LessEq.is_boolean());
    assert!(!Operator::And.is_boolean());
    assert!(Operator::And.is_logical());
    assert!(Operator::Xor.is_logical());
    assert!(Operator::NotEq.is_logical());
    assert!(!Operator::Add.is_logical());
    assert!(!Operator::Clow.is_arithmetic() && !Operator::Clow.is_boolean() && !Operator::Clow.is_logical());
    assert!(!Operator::Cerm.is_logical());
}

#[test]
fn intern_round_trip() {
    let mut names = Interner::new();
    let a = names.intern("foo").unwrap();
    let b = names.intern("bar").unwrap();
    let a2 = names.intern("foo").unwrap();
    assert_eq!(a, a2);
    assert_ne!(a, b);
    assert_eq!(names.resolve(a).as_deref(), Some("foo"));
    assert_eq!(names.resolve(b).as_deref(), Some("bar"));
    assert_eq!(names.resolve(Symbol { id: 7 }), None);
}

#[test]
fn lex_transform_head() {
    let mut names = Interner::new();
    let src = "{x: Int} {y: Int}";
    let toks = lex(src, &mut names).unwrap();
    let x = names.intern("x").unwrap();
    let y = names.intern("y").unwrap();
    assert_eq!(
        kinds(&toks),
        vec![
            TokenKind::ParameterOpen,
            TokenKind::Identifier(x),
            TokenKind::Colon,
            TokenKind::IntType,
            TokenKind::ParameterClose,
            TokenKind::ParameterOpen,
            TokenKind::Identifier(y),
            TokenKind::Colon,
            TokenKind::IntType,
            TokenKind::ParameterClose,
        ]
    );
    assert_eq!(
        spans(&toks),
        vec![(0, 1), (1, 2), (2, 3), (4, 7), (7, 8), (9, 10), (10, 11), (11, 12), (13, 16), (16, 17)]
    );
}

#[test]
fn lex_literals_keywords_and_operators() {
    let mut names = Interner::new();
    let toks = lex("42 true false UInt Bool Unit and or xor ** >= != = < >> order", &mut names).unwrap();
    let order = names.intern("order").unwrap();
    assert_eq!(
        kinds(&toks),
        vec![
            TokenKind::Integer(42),
            TokenKind::Boolean(true),
            TokenKind::Boolean(false),
            TokenKind::UIntType,
            TokenKind::BoolType,
            TokenKind::UnitType,
            TokenKind::Op(Operator::And),
            TokenKind::Op(Operator::Or),
            TokenKind::Op(Operator::Xor),
            TokenKind::Op(Operator::Exp),
            TokenKind::Op(Operator::GreaterEq),
            TokenKind::Op(Operator::NotEq),
            TokenKind::Op(Operator::Assign),
            TokenKind::Op(Operator::Less),
            TokenKind::Op(Operator::Shr),
            TokenKind::Identifier(order),
        ]
    );
}

#[test]
fn lex_largest_integer() {
    let mut names = Interner::new();
    let toks = lex("18446744073709551615", &mut names).unwrap();
    assert_eq!(kinds(&toks), vec![TokenKind::Integer(u64::MAX)]);
}

#[test]
fn lex_integer_too_large() {
    let mut names = Interner::new();
    let err = lex("  18446744073709551616", &mut names).unwrap_err();
    assert!(matches!(err.kind(), ErrorKind::General(_)));
    assert_eq!(err.span().start, 2);
}

#[test]
fn lex_unrecognized_character() {
    let mut names = Interner::new();
    let err = lex("a $ b", &mut names).unwrap_err();
    assert!(matches!(err.kind(), ErrorKind::General(_)));
    assert_eq!(*err.span(), Span::new(2, 3));
    let err = lex("a ! b", &mut names).unwrap_err();
    assert_eq!(*err.span(), Span::new(2, 3));
}

#[test]
fn lex_skips_comments_and_rebuilds_source() {
    let mut names = Interner::new();
    let src = "  {a: Bool} # the parameter\n\t{ b : Int }\r\n# end";
    let toks = lex(src, &mut names).unwrap();
    assert_eq!(toks.len(), 10);
    let mut rebuilt = String::new();
    let mut at = 0;
    for t in &toks {
        let gap = &src[at..t.span.start];
        assert!(gap.lines().all(|l| l.trim().is_empty() || l.trim_start().starts_with('#')));
        rebuilt.push_str(gap);
        rebuilt.push_str(&src[t.span.start..t.span.end]);
        at = t.span.end;
    }
    rebuilt.push_str(&src[at..]);
    assert_eq!(rebuilt, src);
}

#[test]
fn lex_empty_source() {
    let mut names = Interner::new();
    assert!(lex("", &mut names).unwrap().is_empty());
    assert!(lex(" \n # only a comment", &mut names).unwrap().is_empty());
}

fn parser_for(src: &str, names: &mut Interner) -> Parser {
    let toks = lex(src, names).unwrap();
    Parser::new(toks, src.len())
}

#[test]
fn failed_expect_keeps_the_token() {
    let mut names = Interner::new();
    let mut p = parser_for("x: Int", &mut names);
    let first = p.expect(&TokenKind::Colon).unwrap_err();
    let second = p.expect(&TokenKind::Colon).unwrap_err();
    let x = names.intern("x").unwrap();
    for e in [&first, &second] {
        assert_eq!(*e.span(), Span::new(0, 1));
        match e.kind() {
            ErrorKind::Unexpected { expected, found } => {
                assert_eq!(expected, &vec![TokenKind::Colon]);
                assert_eq!(*found, Some(TokenKind::Identifier(x)));
            }
            _ => panic!("expected an Unexpected diagnostic"),
        }
    }
    assert_eq!(p.peek().map(|t| t.kind), Some(TokenKind::Identifier(x)));
    assert!(p.expect(&TokenKind::Identifier(x)).is_ok());
    assert_eq!(p.advance().map(|t| t.kind), Some(TokenKind::Colon));
}

#[test]
fn expect_at_end_of_input() {
    let mut names = Interner::new();
    let mut p = parser_for("x", &mut names);
    assert!(p.advance().is_some());
    assert!(p.at_end());
    assert!(p.advance().is_none());
    let e = p.expect(&TokenKind::Colon).unwrap_err();
    assert_eq!(*e.span(), Span::new(1, 1));
    assert!(matches!(e.kind(), ErrorKind::Unexpected { found: None, .. }));
}

#[test]
fn expect_with_hands_back_the_projection_error() {
    let mut names = Interner::new();
    let mut p = parser_for("5 Int", &mut names);
    let e = p
        .expect_with(|t: &Token| match type_of_token(&t.kind) {
            Some(ty) => Ok(ty),
            None => Err(Error::general(t.span, "not a type", Some("annotation"))),
        })
        .unwrap_err();
    assert_eq!(e.label(), Some("annotation"));
    assert!(matches!(e.kind(), ErrorKind::General(m) if m == "not a type"));
    assert_eq!(p.peek().map(|t| t.kind), Some(TokenKind::Integer(5)));
    assert!(p.advance().is_some());
    let ty = p.expect_with(|t: &Token| type_of_token(&t.kind).ok_or_else(|| Error::no_top_level_expr()));
    assert_eq!(ty.unwrap(), Type::Int);
    assert!(p.at_end());
}

#[test]
fn transform_parameter_lists_in_sequence() {
    let mut names = Interner::new();
    let mut p = parser_for("{x: Int} {y: Int}", &mut names);
    let x = names.intern("x").unwrap();
    let y = names.intern("y").unwrap();
    let first = parse_parameter_list(&mut p).unwrap();
    assert_eq!(first, vec![(x, Type::Int)]);
    let second = parse_parameter_list(&mut p).unwrap();
    assert_eq!(second, vec![(y, Type::Int)]);
    assert!(p.at_end());
}

#[test]
fn transform_needs_a_body_after_every_list() {
    let mut names = Interner::new();
    let mut p = parser_for("{x: Int} {y: Int}", &mut names);
    let e = Transform::try_from(&mut p).err().unwrap();
    assert_eq!(*e.span(), Span::new(17, 17));
    match e.kind() {
        ErrorKind::Unexpected { expected, found } => {
            assert_eq!(expected, &vec![TokenKind::ParameterOpen]);
            assert_eq!(*found, None);
        }
        _ => panic!("expected an Unexpected diagnostic"),
    }
}

#[test]
fn transform_without_body_fails() {
    let mut names = Interner::new();
    let e = parse("{x: Int, y: Bool}", &mut names).err().unwrap();
    assert_eq!(*e.span(), Span::new(17, 17));
    assert!(matches!(e.kind(), ErrorKind::Unexpected { found: None, .. }));
}

#[test]
fn whitespace_has_no_top_level_expression() {
    let mut names = Interner::new();
    for src in ["", "   ", " \n\t \r\n "] {
        let e = parse(src, &mut names).err().unwrap();
        assert!(matches!(e.kind(), ErrorKind::NoTopLevelExpr));
        assert_eq!(*e.span(), Span::new(0, 0));
        assert_eq!(e.label(), None);
    }
}

#[test]
fn unclosed_parameter_brace() {
    let mut names = Interner::new();
    for src in ["{x: Int", "  {", "{x", "{x:", "{x: Int,"] {
        let e = parse(src, &mut names).err().unwrap();
        assert_eq!(*e.span(), Span::new(src.len(), src.len()));
        match e.kind() {
            ErrorKind::UnclosedDelimiter { delimiter, delimiter_span, expected, found } => {
                assert_eq!(*delimiter, TokenKind::ParameterOpen);
                let open = src.find('{').unwrap();
                assert_eq!(*delimiter_span, Span::new(open, open + 1));
                assert_eq!(*expected, TokenKind::ParameterClose);
                assert_eq!(*found, None);
            }
            _ => panic!("expected an UnclosedDelimiter diagnostic for {src:?}"),
        }
    }
}

#[test]
fn transform_malformed_parameters() {
    let mut names = Interner::new();
    let e = parse("{: Int}", &mut names).err().unwrap();
    assert!(matches!(e.kind(), ErrorKind::General(m) if m.contains("identifier")));
    assert_eq!(*e.span(), Span::new(1, 2));

    let e = parse("{x: 5}", &mut names).err().unwrap();
    assert!(matches!(e.kind(), ErrorKind::General(m) if m.contains("type")));
    assert_eq!(*e.span(), Span::new(4, 5));

    let e = parse("{x Int}", &mut names).err().unwrap();
    match e.kind() {
        ErrorKind::Unexpected { expected, found } => {
            assert_eq!(expected, &vec![TokenKind::Colon]);
            assert_eq!(*found, Some(TokenKind::IntType));
        }
        _ => panic!("expected an Unexpected diagnostic"),
    }

    let e = parse("{x: Int y: Int}", &mut names).err().unwrap();
    assert!(matches!(e.kind(), ErrorKind::NotSupported(_)));
    assert_eq!(*e.span(), Span::new(8, 9));

    let e = parse("x", &mut names).err().unwrap();
    assert!(matches!(e.kind(), ErrorKind::Unexpected { found: Some(_), .. }));
}

#[test]
fn named_types_are_checked_references() {
    let mut names = Interner::new();
    let mut p = parser_for("{p: Point, u: UInt, q: Unit}", &mut names);
    let point = names.intern("Point").unwrap();
    let ps = parse_parameter_list(&mut p).unwrap();
    assert_eq!(ps[0].1, Type::Checked(point));
    assert_eq!(ps[1].1, Type::UInt);
    assert_eq!(ps[2].1, Type::Unit);
    assert_eq!(type_of_token(&TokenKind::Colon), None);
    assert_eq!(type_of_token(&TokenKind::BoolType), Some(Type::Bool));
}

#[test]
fn reduction_is_not_supported() {
    let mut t = Transform { parameters: vec![(Symbol { id: 0 }, Type::Int)], next_expr: None };
    let e = t.try_reduce().unwrap_err();
    assert!(matches!(e.kind(), ErrorKind::NotSupported(_)));
    assert_eq!(t.parameters, vec![(Symbol { id: 0 }, Type::Int)]);
}

#[test]
fn tuple_types_compare_in_order() {
    let a = Symbol { id: 1 };
    let b = Symbol { id: 2 };
    let t1 = Type::Tuple(vec![(Some(a), Type::Int), (Some(b), Type::Bool)]);
    let t2 = Type::Tuple(vec![(Some(a), Type::Int), (Some(b), Type::Bool)]);
    let swapped = Type::Tuple(vec![(Some(b), Type::Bool), (Some(a), Type::Int)]);
    assert!(t1 == t2);
    assert!(t1 != swapped);
    let unnamed = Type::Tuple(vec![(None, Type::Int), (None, Type::Int)]);
    let unnamed2 = Type::Tuple(vec![(None, Type::Int), (None, Type::Int)]);
    assert!(unnamed == unnamed2);
    assert!(Type::Tuple(vec![]) == Type::Tuple(vec![]));
    assert!(Type::Tuple(vec![(None, Type::Int)]) != Type::Tuple(vec![(None, Type::UInt)]));
}

#[test]
fn compound_types_compare_structurally() {
    let arr = |n| Type::Array { ty: Box::new(Type::Int), len: n };
    assert!(arr(Some(3)) == arr(Some(3)));
    assert!(arr(Some(3)) != arr(None));
    let f = |i: Type, o: Type| Type::Expression { input: Box::new(i), output: Box::new(o) };
    assert!(f(Type::Int, Type::Bool) == f(Type::Int, Type::Bool));
    assert!(f(Type::Int, Type::Bool) != f(Type::Bool, Type::Int));
    assert!(Type::Checked(Symbol { id: 4 }) != Type::Checked(Symbol { id: 5 }));
    assert!(Type::Unit != Type::Int);
}

#[test]
fn error_constructors_and_accessors() {
    let e = Error::general(Span::new(1, 4), "bad", Some("rule"));
    assert_eq!(*e.span(), Span::new(1, 4));
    assert_eq!(e.label(), Some("rule"));
    assert!(matches!(e.kind(), ErrorKind::General(m) if m == "bad"));

    let e = Error::unexpected(Span::new(0, 2), vec![TokenKind::Colon, TokenKind::Separator], None, None);
    assert!(matches!(e.kind(), ErrorKind::Unexpected { expected, found: None } if expected.len() == 2));

    let e = Error::undeclared_var(Span::new(5, 6), "z", None);
    assert!(matches!(e.kind(), ErrorKind::UndeclaredVar { var_name } if var_name == "z"));

    let e = Error::no_top_level_expr();
    assert_eq!(*e.span(), Span::new(0, 0));
    assert!(matches!(e.kind(), ErrorKind::NoTopLevelExpr));

    let labelled = Error::no_top_level_expr().with_label("script");
    assert_eq!(labelled.label(), Some("script"));
    assert_eq!(*labelled.span(), Span::new(0, 0));
    assert!(matches!(labelled.kind(), ErrorKind::NoTopLevelExpr));
}

#[test]
fn expected_input_found_drops_end_of_input() {
    let e = Error::expected_input_found(
        Span::new(3, 4),
        vec![Some(TokenKind::Colon), None, Some(TokenKind::Separator)],
        Some(TokenKind::GroupOpen),
    );
    match e.kind() {
        ErrorKind::Unexpected { expected, found } => {
            assert_eq!(expected, &vec![TokenKind::Colon, TokenKind::Separator]);
            assert_eq!(*found, Some(TokenKind::GroupOpen));
        }
        _ => panic!("expected an Unexpected diagnostic"),
    }
    assert_eq!(e.label(), None);
}

#[test]
fn unclosed_delimiter_and_merge() {
    let e = Error::unclosed_delimiter(
        Span::new(0, 1),
        TokenKind::GroupOpen,
        Span::new(9, 9),
        TokenKind::GroupClose,
        Some(TokenKind::Separator),
    );
    assert_eq!(*e.span(), Span::new(9, 9));
    assert!(matches!(
        e.kind(),
        ErrorKind::UnclosedDelimiter { delimiter: TokenKind::GroupOpen, delimiter_span, .. }
            if *delimiter_span == Span::new(0, 1)
    ));
    let first = Error::general(Span::new(1, 2), "first", None);
    let second = Error::general(Span::new(3, 4), "second", None);
    let merged = first.merge(second);
    assert!(matches!(merged.kind(), ErrorKind::General(m) if m == "first"));
    assert_eq!(*merged.span(), Span::new(1, 2));
}

#[test]
fn lexed_identifiers_resolve_to_their_text() {
    let mut names = Interner::new();
    let toks = lex("alpha _b9 alpha", &mut names).unwrap();
    let syms: Vec<Symbol> = toks
        .iter()
        .map(|t| match t.kind {
            TokenKind::Identifier(s) => s,
            other => panic!("expected an identifier, got {other:?}"),
        })
        .collect();
    assert_eq!(syms[0], syms[2]);
    assert_ne!(syms[0], syms[1]);
    assert_eq!(names.resolve(syms[0]).as_deref(), Some("alpha"));
    assert_eq!(names.resolve(syms[1]).as_deref(), Some("_b9"));
}

#[test]
fn failed_transform_leaves_the_offending_token() {
    let mut names = Interner::new();
    let mut p = parser_for("x: Int}", &mut names);
    let x = names.intern("x").unwrap();
    let first = Transform::try_from(&mut p).err().unwrap();
    assert_eq!(first.label(), None);
    assert_eq!(p.peek().map(|t| t.kind), Some(TokenKind::Identifier(x)));
    let second = Transform::try_from(&mut p).err().unwrap();
    for e in [&first, &second] {
        assert_eq!(*e.span(), Span::new(0, 1));
        match e.kind() {
            ErrorKind::Unexpected { expected, found } => {
                assert_eq!(expected, &vec![TokenKind::ParameterOpen]);
                assert_eq!(*found, Some(TokenKind::Identifier(x)));
            }
            _ => panic!("expected an Unexpected diagnostic"),
        }
    }
}

#[test]
fn failed_parameter_leaves_the_cursor_on_it() {
    let mut names = Interner::new();
    let mut p = parser_for("{: Int}", &mut names);
    let e = Transform::try_from(&mut p).err().unwrap();
    assert!(matches!(e.kind(),
        ErrorKind::General(m) if m == "expected identifier (hint: parameter format is `name: Int`)"));
    assert_eq!(p.peek().map(|t| t.kind), Some(TokenKind::Colon));

    let mut p = parser_for("{x: 5}", &mut names);
    let e = Transform::try_from(&mut p).err().unwrap();
    assert!(matches!(e.kind(),
        ErrorKind::General(m) if m == "expected type (hint: parameter format is `name: Type`)"));
    assert_eq!(e.label(), None);
    assert_eq!(p.peek().map(|t| t.kind), Some(TokenKind::Integer(5)));

    let mut p = parser_for("{x: Int y: Int}", &mut names);
    assert!(parse_parameter_list(&mut p).is_err());
    let y = names.intern("y").unwrap();
    assert_eq!(p.peek().map(|t| t.kind), Some(TokenKind::Identifier(y)));
}

#[test]
fn comments_hide_their_text() {
    let mut names = Interner::new();
    assert!(lex("# x", &mut names).unwrap().is_empty());
    let toks = lex("x # it's $ 99999999999999999999", &mut names).unwrap();
    assert_eq!(toks.len(), 1);
    let err = lex("x # ok\n$", &mut names).unwrap_err();
    assert_eq!(*err.span(), Span::new(7, 8));
}
