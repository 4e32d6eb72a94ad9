use expr_ast::ast::{
    trees_equal, BinaryOp, ContextEq, Expression, ExpressionData, ExpressionId, Literal,
};
use expr_ast::parser::{
    infix_binding_power, parse_expression, parse_ident_expr, parse_leaf, parse_literal,
    parse_parenthetical, try_parse_bin_op,
};
use expr_ast::span::{merge, Span};
use expr_ast::token::{
    Construct, Expected, NameId, ParseInput, ParserError, Token, TokenAt,
};

fn make_span(start: usize, len: usize) -> Span {
    Span::new(start, start + len)
}

/// Interns identifier text as a stable FNV-1a hash of its bytes.
fn name(text: &str) -> NameId {
    let mut h: u32 = 0x811c_9dc5;
    for b in text.bytes() {
        h ^= b as u32;
        h = h.wrapping_mul(0x0100_0193);
    }
    NameId(h)
}

fn punct(rest: &[u8]) -> Option<(Token, usize)> {
    let three: &[(&[u8], Token)] = &[(b">>>", Token::ArithShiftR)];
    let two: &[(&[u8], Token)] = &[
        (b"<<", Token::BitShiftL),
        (b">>", Token::BitShiftR),
        (b"<=", Token::LTE),
        (b">=", Token::GTE),
        (b"==", Token::EQ),
        (b"!=", Token::NEQ),
        (b"&&", Token::LogicalAnd),
        (b"||", Token::LogicalOr),
    ];
    for (text, tok) in three.iter().chain(two.iter()) {
        if rest.starts_with(text) {
            return Some((tok.clone(), text.len()));
        }
    }
    let tok = match rest[0] {
        b'(' => Token::LParen,
        b')' => Token::RParen,
        b',' => Token::Comma,
        b'+' => Token::Add,
        b'-' => Token::Sub,
        b'*' => Token::Mult,
        b'/' => Token::Div,
        b'%' => Token::Mod,
        b'<' => Token::LT,
        b'>' => Token::GT,
        b'&' => Token::BitAnd,
        b'^' => Token::BitXor,
        b'|' => Token::BitOr,
        b'!' => Token::Invert,
        _ => return None,
    };
    Some((tok, 1))
}

/// A small lexer for the test sources.
fn make_input(source: &str) -> ParseInput {
    let bytes = source.as_bytes();
    let mut tokens = Vec::new();
    let mut i = 0;
    while i < bytes.len() {
        let c = bytes[i];
        let start = i;
        if c == b' ' {
            i += 1;
            continue;
        }
        let token = if c.is_ascii_digit() {
            if source[i..].starts_with("0x") || source[i..].starts_with("0b") {
                let radix = if bytes[i + 1] == b'x' { 16 } else { 2 };
                i += 2;
                while i < bytes.len() && bytes[i].is_ascii_hexdigit() {
                    i += 1;
                }
                let v = u64::from_str_radix(&source[start + 2..i], radix).unwrap();
                if radix == 16 {
                    Token::HexLiteral(v)
                } else {
                    Token::BinLiteral(v)
                }
            } else {
                while i < bytes.len() && (bytes[i].is_ascii_digit() || bytes[i] == b'.') {
                    i += 1;
                }
                let text = &source[start..i];
                if text.contains('.') {
                    Token::DecFloatLiteral(text.parse::<f64>().unwrap().to_bits())
                } else {
                    Token::DecIntLiteral(text.parse::<u64>().unwrap())
                }
            }
        } else if c.is_ascii_alphabetic() || c == b'_' {
            while i < bytes.len() && (bytes[i].is_ascii_alphanumeric() || bytes[i] == b'_') {
                i += 1;
            }
            Token::Identifier(name(&source[start..i]))
        } else if c == b'"' {
            i += 1;
            while bytes[i] != b'"' {
                i += 1;
            }
            i += 1;
            Token::StringLiteral(source[start + 1..i - 1].to_owned())
        } else {
            let (tok, len) = punct(&bytes[i..]).unwrap();
            i += len;
            tok
        };
        tokens.push(TokenAt { token, span: make_span(start, i - start) });
    }
    ParseInput::new(tokens)
}

fn lit(data: &mut ExpressionData, value: u64, start: usize, len: usize) -> ExpressionId {
    data.alloc_literal(Literal::Integer(value), make_span(start, len))
}

fn ident(data: &mut ExpressionData, text: &str, start: usize) -> ExpressionId {
    data.alloc_ident(name(text), make_span(start, text.len()))
}

#[test]
fn parsing_supports_dec_integer() {
    let mut data = ExpressionData::default();
    let cases = [
        ("0", 0, make_span(0, 1)),
        ("1", 1, make_span(0, 1)),
        ("32", 32, make_span(0, 2)),
        ("129", 129, make_span(0, 3)),
    ];
    for (source, value, span) in cases {
        let expected_expression = data.alloc_literal(Literal::Integer(value), span.clone());

        let found_literal = parse_literal(&mut make_input(source), &mut data).unwrap();
        assert!(data.eq(found_literal, expected_expression));
        let found_leaf = parse_leaf(&mut make_input(source), &mut data).unwrap();
        assert!(data.eq(found_leaf, expected_expression));
        let found_expression = parse_expression(&mut make_input(source), &mut data).unwrap();
        assert!(data.eq(found_expression, expected_expression));
    }
}

#[test]
fn parsing_supports_idents() {
    let mut data = ExpressionData::default();
    let cases = [
        ("foo", make_span(0, 3)),
        ("foobar", make_span(0, 6)),
        ("asdf", make_span(0, 4)),
        ("asdf2", make_span(0, 5)),
    ];
    for (source, span) in cases {
        let expected_expression = data.alloc_ident(name(source), span.clone());
        let found_ident = parse_ident_expr(&mut make_input(source), &mut data).unwrap();
        assert!(data.eq(found_ident, expected_expression));

        let found_leaf = parse_leaf(&mut make_input(source), &mut data).unwrap();
        assert!(data.eq(found_leaf, expected_expression));

        let found_expression = parse_expression(&mut make_input(source), &mut data).unwrap();
        assert!(data.eq(found_expression, expected_expression));
    }
}

#[test]
fn parsing_supports_parenthesized_idents() {
    let mut data = ExpressionData::default();
    // parenthesized, raw, raw-span
    let cases = [
        ("(foo)", "foo", make_span(1, 3)),
        ("(foobar)", "foobar", make_span(1, 6)),
        ("(asdf)", "asdf", make_span(1, 4)),
        ("(asdf2)", "asdf2", make_span(1, 5)),
    ];
    for (source, ident, span) in cases {
        let expected_expression = data.alloc_ident(name(ident), span.clone());
        let found_expression = parse_parenthetical(&mut make_input(source), &mut data).unwrap();
        assert!(data.eq(found_expression, expected_expression));
        let found_expression = parse_leaf(&mut make_input(source), &mut data).unwrap();
        assert!(data.eq(found_expression, expected_expression));
        let found_expression = parse_expression(&mut make_input(source), &mut data).unwrap();
        assert!(data.eq(found_expression, expected_expression));
    }
}

#[test]
fn parse_expression_respects_precedence() {
    let mut data = ExpressionData::default();

    let source0 = "0 + 1 * 2";
    let l0 = lit(&mut data, 0, 0, 1);
    let l1 = lit(&mut data, 1, 4, 1);
    let l2 = lit(&mut data, 2, 8, 1);
    let m = data.alloc_bin_op(&BinaryOp::Multiply, l1, l2);
    let expected0 = data.alloc_bin_op(&BinaryOp::Add, l0, m);

    let source1 = "0 * 1 + 2";
    let l0 = lit(&mut data, 0, 0, 1);
    let l1 = lit(&mut data, 1, 4, 1);
    let m = data.alloc_bin_op(&BinaryOp::Multiply, l0, l1);
    let l2 = lit(&mut data, 2, 8, 1);
    let expected1 = data.alloc_bin_op(&BinaryOp::Add, m, l2);

    let cases = [(source0, expected0), (source1, expected1)];

    for (source, expected) in cases {
        let result = parse_expression(&mut make_input(source), &mut data).unwrap();
        assert!(data.eq(result, expected));
    }
}

#[test]
fn parse_expression_respects_associativity() {
    let mut data = ExpressionData::default();

    let source0 = "0 + 1 + 2";
    let l0 = lit(&mut data, 0, 0, 1);
    let l1 = lit(&mut data, 1, 4, 1);
    let a = data.alloc_bin_op(&BinaryOp::Add, l0, l1);
    let l2 = lit(&mut data, 2, 8, 1);
    let expected0 = data.alloc_bin_op(&BinaryOp::Add, a, l2);

    let source1 = "0 * 1 * 2";
    let l0 = lit(&mut data, 0, 0, 1);
    let l1 = lit(&mut data, 1, 4, 1);
    let m = data.alloc_bin_op(&BinaryOp::Multiply, l0, l1);
    let l2 = lit(&mut data, 2, 8, 1);
    let expected1 = data.alloc_bin_op(&BinaryOp::Multiply, m, l2);

    let cases = [(source0, expected0), (source1, expected1)];

    for (source, expected) in cases {
        let result = parse_expression(&mut make_input(source), &mut data).unwrap();
        assert!(data.eq(result, expected));
    }
}

#[test]
fn right_nested_sum_is_not_the_parse() {
    let mut data = ExpressionData::default();
    let l0 = lit(&mut data, 0, 0, 1);
    let l1 = lit(&mut data, 1, 4, 1);
    let l2 = lit(&mut data, 2, 8, 1);
    let inner = data.alloc_bin_op(&BinaryOp::Add, l1, l2);
    let right_nested = data.alloc_bin_op(&BinaryOp::Add, l0, inner);
    let result = parse_expression(&mut make_input("0 + 1 + 2"), &mut data).unwrap();
    assert!(!data.eq(result, right_nested));
}

#[test]
fn logical_or_is_left_associative() {
    let mut data = ExpressionData::default();
    let a = ident(&mut data, "a", 0);
    let b = ident(&mut data, "b", 5);
    let ab = data.alloc_bin_op(&BinaryOp::LogicalOr, a, b);
    let c = ident(&mut data, "c", 10);
    let expected = data.alloc_bin_op(&BinaryOp::LogicalOr, ab, c);
    let result = parse_expression(&mut make_input("a || b || c"), &mut data).unwrap();
    assert!(data.eq(result, expected));
}

#[test]
fn mixed_tiers_group_by_precedence() {
    let mut data = ExpressionData::default();
    // a == b & c  parses as  (a == b) & c
    let a = ident(&mut data, "a", 0);
    let b = ident(&mut data, "b", 5);
    let eq = data.alloc_bin_op(&BinaryOp::Equals, a, b);
    let c = ident(&mut data, "c", 9);
    let expected = data.alloc_bin_op(&BinaryOp::BitAnd, eq, c);
    let result = parse_expression(&mut make_input("a == b & c"), &mut data).unwrap();
    assert!(data.eq(result, expected));
}

#[test]
fn literal_forms_round_trip() {
    let mut data = ExpressionData::default();
    let cases = [
        ("0x1F", Literal::Integer(31), make_span(0, 4)),
        ("0b101", Literal::Integer(5), make_span(0, 5)),
        ("42", Literal::Integer(42), make_span(0, 2)),
        ("2.5", Literal::Float(2.5f64.to_bits()), make_span(0, 3)),
    ];
    for (source, value, span) in cases {
        let id = parse_expression(&mut make_input(source), &mut data).unwrap();
        match data.get_exp(id) {
            Expression::Literal(found) => assert_eq!(*found, value),
            _ => panic!("expected a literal"),
        }
        assert_eq!(data.get_span(id), span);
    }
}

#[test]
fn float_literals_compare_by_bits() {
    let mut data = ExpressionData::default();
    let a = data.alloc_literal(Literal::Float(0.0f64.to_bits()), make_span(0, 3));
    let b = data.alloc_literal(Literal::Float((-0.0f64).to_bits()), make_span(0, 3));
    let c = data.alloc_literal(Literal::Float(0.0f64.to_bits()), make_span(0, 3));
    assert!(!data.eq(a, b));
    assert!(data.eq(a, c));
}

#[test]
fn call_arguments_keep_their_order() {
    let mut data = ExpressionData::default();
    let a = ident(&mut data, "a", 2);
    let b = ident(&mut data, "b", 5);
    let c = ident(&mut data, "c", 8);
    let expected = data.alloc_call(name("f"), vec![a, b, c], make_span(1, 9));
    let reordered = data.alloc_call(name("f"), vec![b, a, c], make_span(1, 9));
    let shorter = data.alloc_call(name("f"), vec![a, b], make_span(1, 9));
    let result = parse_expression(&mut make_input("f(a, b, c)"), &mut data).unwrap();
    assert!(data.eq(result, expected));
    assert!(!data.eq(result, reordered));
    assert!(!data.eq(result, shorter));
    assert!(!data.eq(shorter, result));
    match data.get_exp(result) {
        Expression::Call(call) => {
            assert_eq!(call.ident, name("f"));
            assert_eq!(call.args.len(), 3);
        },
        _ => panic!("expected a call"),
    }
}

#[test]
fn call_without_arguments() {
    let mut data = ExpressionData::default();
    let expected = data.alloc_call(name("g"), Vec::new(), make_span(1, 2));
    let result = parse_expression(&mut make_input("g()"), &mut data).unwrap();
    assert!(data.eq(result, expected));
}

fn check_spans(data: &ExpressionData, id: ExpressionId) {
    let span = data.get_span(id);
    assert!(span.start <= span.end);
    match data.get_exp(id) {
        Expression::Call(call) => {
            for arg in call.args.iter() {
                check_spans(data, *arg);
            }
        },
        Expression::Invert(inv) => check_spans(data, inv.inner),
        Expression::Identifier(_) | Expression::Literal(_) => {},
        other => {
            let (_, l, r) = expr_ast::ast::binary_parts(other).unwrap();
            assert_eq!(span, merge(&data.get_span(l), &data.get_span(r)));
            check_spans(data, l);
            check_spans(data, r);
        },
    }
}

#[test]
fn parsed_spans_compose() {
    let mut data = ExpressionData::default();
    let source = "x * (y + 3) - f(z, 0x10 << 2) >= w";
    let id = parse_expression(&mut make_input(source), &mut data).unwrap();
    check_spans(&data, id);
    assert_eq!(data.get_span(id), make_span(0, source.len()));
}

#[test]
fn context_eq_is_reflexive_and_span_sensitive() {
    let mut data = ExpressionData::default();
    let first = parse_expression(&mut make_input("1 + 2"), &mut data).unwrap();
    let shifted = parse_expression(&mut make_input(" 1 + 2"), &mut data).unwrap();
    assert!(data.eq(first, first));
    assert!(first.context_eq(&first, &data));
    assert!(!data.eq(first, shifted));
    assert!(!first.context_eq(&shifted, &data));
}

#[test]
fn swapped_operands_are_not_equal() {
    let mut data = ExpressionData::default();
    let a = ident(&mut data, "a", 0);
    let b = ident(&mut data, "a", 0);
    let c = lit(&mut data, 1, 0, 1);
    let x = data.alloc_bin_op(&BinaryOp::Add, a, c);
    let y = data.alloc_bin_op(&BinaryOp::Add, c, b);
    let z = data.alloc_bin_op(&BinaryOp::Subtract, a, c);
    assert!(!data.eq(x, y));
    assert!(!data.eq(x, z));
    assert!(data.get_exp(x).context_eq(data.get_exp(x), &data));
}

#[test]
fn string_literal_is_unsupported() {
    let mut data = ExpressionData::default();
    let before = data.len();
    let result = parse_expression(&mut make_input("\"hello\""), &mut data);
    assert_eq!(
        result,
        Err(ParserError::Unsupported { pos: 0, construct: Construct::StringLiteral })
    );
    assert_eq!(data.len(), before);
}

#[test]
fn parse_errors_are_typed() {
    let mut data = ExpressionData::default();
    assert_eq!(
        parse_expression(&mut make_input(""), &mut data),
        Err(ParserError::UnexpectedEnd { pos: 0 })
    );
    assert_eq!(
        parse_expression(&mut make_input(")"), &mut data),
        Err(ParserError::UnexpectedToken { pos: 0, expected: Expected::Literal })
    );
    assert_eq!(
        parse_expression(&mut make_input("(a b"), &mut data),
        Err(ParserError::UnexpectedToken { pos: 2, expected: Expected::RightParen })
    );
    assert_eq!(
        parse_expression(&mut make_input("f(a b)"), &mut data),
        Err(ParserError::UnexpectedToken { pos: 3, expected: Expected::ArgumentSeparator })
    );
    assert_eq!(
        parse_expression(&mut make_input("1 +"), &mut data),
        Err(ParserError::UnexpectedEnd { pos: 2 })
    );
    assert_eq!(
        parse_ident_expr(&mut make_input("7"), &mut data),
        Err(ParserError::UnexpectedToken { pos: 0, expected: Expected::Identifier })
    );
}

#[test]
fn expression_stops_before_foreign_token() {
    let mut data = ExpressionData::default();
    let mut input = make_input("a + b)");
    parse_expression(&mut input, &mut data).unwrap();
    assert_eq!(input.position(), 3);
}

#[test]
fn binding_powers_follow_tiers() {
    assert_eq!(infix_binding_power(BinaryOp::LogicalOr), (10, 11));
    assert_eq!(infix_binding_power(BinaryOp::LogicalAnd), (20, 21));
    assert_eq!(infix_binding_power(BinaryOp::BitXor), (40, 41));
    assert_eq!(infix_binding_power(BinaryOp::GreaterThanEqual), (70, 71));
    assert_eq!(infix_binding_power(BinaryOp::ArithShiftR), (80, 81));
    assert_eq!(infix_binding_power(BinaryOp::Subtract), (90, 91));
    assert_eq!(infix_binding_power(BinaryOp::Modulo), (100, 101));
}

#[test]
fn bin_op_recognition() {
    let mut input = make_input("<< x");
    assert_eq!(try_parse_bin_op(&mut input), Some((BinaryOp::BitShiftL, make_span(0, 2))));
    assert_eq!(input.position(), 1);
    assert_eq!(try_parse_bin_op(&mut input), None);
    assert_eq!(input.position(), 1);
}

#[test]
fn store_allocates_dense_handles() {
    let mut data = ExpressionData::new();
    let a = lit(&mut data, 7, 3, 1);
    let b = ident(&mut data, "q", 5);
    assert_eq!(data.len(), 2);
    assert!(a != b);
    assert!(a < b);
    assert!(matches!(data.get_exp(a), Expression::Literal(Literal::Integer(7))));
    assert_eq!(data.get_span(b), make_span(5, 1));
    let s = data.alloc_bin_op(&BinaryOp::Divide, a, b);
    assert_eq!(data.get_span(s), Span::new(3, 6));
}

#[test]
fn only_invert_is_a_unary_operator() {
    let mut data = ExpressionData::default();
    let a = ident(&mut data, "a", 1);
    let inv = data.alloc_unary_op(&Token::Invert, a, make_span(0, 2));
    assert!(inv.is_ok());
    assert!(matches!(data.get_exp(inv.unwrap()), Expression::Invert(_)));
    let before = data.len();
    assert_eq!(
        data.alloc_unary_op(&Token::Sub, a, make_span(0, 2)),
        Err(Construct::UnaryOperator)
    );
    assert_eq!(data.len(), before);
}

#[test]
fn expressions_lists_every_handle() {
    let mut data = ExpressionData::default();
    let a = lit(&mut data, 1, 0, 1);
    let b = lit(&mut data, 2, 4, 1);
    let s = data.alloc_bin_op(&BinaryOp::Add, a, b);
    assert_eq!(data.expressions(), vec![a, b, s]);
}

#[test]
fn parenthetical_errors() {
    let mut data = ExpressionData::default();
    assert_eq!(
        parse_parenthetical(&mut make_input("a"), &mut data),
        Err(ParserError::UnexpectedToken { pos: 0, expected: Expected::LeftParen })
    );
    assert_eq!(
        parse_parenthetical(&mut make_input("(a"), &mut data),
        Err(ParserError::UnexpectedEnd { pos: 2 })
    );
}

#[test]
fn leaf_on_identifier_followed_by_paren_is_a_call() {
    let mut data = ExpressionData::default();
    let x = ident(&mut data, "x", 2);
    let expected = data.alloc_call(name("h"), vec![x], make_span(1, 3));
    let mut input = make_input("h(x) + 1");
    let found = parse_leaf(&mut input, &mut data).unwrap();
    assert!(data.eq(found, expected));
    assert_eq!(input.position(), 4);
}

#[test]
fn merge_covers_both_spans() {
    assert_eq!(merge(&make_span(4, 1), &make_span(0, 2)), Span::new(0, 5));
    assert_eq!(merge(&Span::new(2, 9), &Span::new(3, 4)), Span::new(2, 9));
}

#[test]
fn trees_compare_across_stores() {
    let mut expected = ExpressionData::new();
    let _unrelated = lit(&mut expected, 9, 50, 1);
    let a = ident(&mut expected, "a", 0);
    let b = ident(&mut expected, "b", 4);
    let sum = expected.alloc_bin_op(&BinaryOp::Add, a, b);
    let mut actual = ExpressionData::new();
    let found = parse_expression(&mut make_input("a + b"), &mut actual).unwrap();
    assert!(trees_equal(&expected, sum, &actual, found));
    assert!(trees_equal(&actual, found, &expected, sum));
    assert!(!trees_equal(&expected, a, &actual, found));
    let diff = expected.alloc_bin_op(&BinaryOp::Subtract, a, b);
    assert!(!trees_equal(&expected, diff, &actual, found));
}
