use crate::ast::{
    binary_view, tree_of, tree_span, trees_of, BinaryOp, Expression, ExpressionData, ExpressionId,
    Identifier, Literal, Tree,
};
use crate::span::{span_union, Span};
use crate::token::{Construct, Expected, ParseInput, ParserError, Punct, Token, TokenAt};
use vstd::prelude::*;

verus! {

/// The binary operator that a token stands for, if any.
pub open spec fn bin_op_of(t: Token) -> Option<BinaryOp> {
    match t {
        Token::LogicalOr => Some(BinaryOp::LogicalOr),
        Token::LogicalAnd => Some(BinaryOp::LogicalAnd),
        Token::BitOr => Some(BinaryOp::BitOr),
        Token::BitXor => Some(BinaryOp::BitXor),
        Token::BitAnd => Some(BinaryOp::BitAnd),
        Token::EQ => Some(BinaryOp::Equals),
        Token::NEQ => Some(BinaryOp::NotEquals),
        Token::LT => Some(BinaryOp::LessThan),
        Token::LTE => Some(BinaryOp::LessThanEqual),
        Token::GT => Some(BinaryOp::GreaterThan),
        Token::GTE => Some(BinaryOp::GreaterThanEqual),
        Token::BitShiftL => Some(BinaryOp::BitShiftL),
        Token::BitShiftR => Some(BinaryOp::BitShiftR),
        Token::ArithShiftR => Some(BinaryOp::ArithShiftR),
        Token::Add => Some(BinaryOp::Add),
        Token::Sub => Some(BinaryOp::Subtract),
        Token::Mult => Some(BinaryOp::Multiply),
        Token::Div => Some(BinaryOp::Divide),
        Token::Mod => Some(BinaryOp::Modulo),
        _ => None,
    }
}

/// Left and right binding power of each operator. A higher power binds
/// tighter, and every operator is left-associative: its right power is one
/// above its left power.
pub open spec fn binding_power(op: BinaryOp) -> (u8, u8) {
    match op {
        BinaryOp::LogicalOr => (10, 11),
        BinaryOp::LogicalAnd => (20, 21),
        BinaryOp::BitOr => (30, 31),
        BinaryOp::BitXor => (40, 41),
        BinaryOp::BitAnd => (50, 51),
        BinaryOp::Equals | BinaryOp::NotEquals => (60, 61),
        BinaryOp::LessThan | BinaryOp::LessThanEqual | BinaryOp::GreaterThan | BinaryOp::GreaterThanEqual => (70, 71),
        BinaryOp::BitShiftL | BinaryOp::BitShiftR | BinaryOp::ArithShiftR => (80, 81),
        BinaryOp::Add | BinaryOp::Subtract => (90, 91),
        BinaryOp::Multiply | BinaryOp::Divide | BinaryOp::Modulo => (100, 101),
    }
}

/// The literal that a token denotes: integers in any base become their
/// value, floats their bit pattern.
pub open spec fn literal_of(t: Token) -> Option<Literal> {
    match t {
        Token::DecIntLiteral(v) => Some(Literal::Integer(v)),
        Token::BinLiteral(v) => Some(Literal::Integer(v)),
        Token::HexLiteral(v) => Some(Literal::Integer(v)),
        Token::DecFloatLiteral(v) => Some(Literal::Float(v)),
        _ => None,
    }
}

/// The cursor has only moved forward over the same tokens.
pub open spec fn advanced(i0: ParseInput, i1: ParseInput) -> bool {
    &&& i1.wf()
    &&& i1.tokens() == i0.tokens()
    &&& i0.pos() <= i1.pos()
}

/// The store has only been appended to.
pub open spec fn extends(d0: ExpressionData, d1: ExpressionData) -> bool {
    &&& d1.wf()
    &&& d0.nodes().len() <= d1.nodes().len()
    &&& forall|i: int|
        0 <= i < d0.nodes().len() ==> #[trigger] d1.nodes()[i] == d0.nodes()[i] && d1.spans()[i]
            == d0.spans()[i]
}

/// Room for one node per remaining token, within the range of handles.
pub open spec fn has_room(input: ParseInput, data: ExpressionData) -> bool {
    data.nodes().len() + input.remaining() < u32::MAX
}

/// No more nodes were allocated than tokens were consumed.
pub open spec fn paid(i0: ParseInput, i1: ParseInput, d0: ExpressionData, d1: ExpressionData) -> bool {
    d1.nodes().len() + i1.remaining() <= d0.nodes().len() + i0.remaining()
}

/// What every parsing function keeps, whether it succeeds or fails.
pub open spec fn parse_frame(
    i0: ParseInput,
    i1: ParseInput,
    d0: ExpressionData,
    d1: ExpressionData,
) -> bool {
    &&& advanced(i0, i1)
    &&& extends(d0, d1)
    &&& paid(i0, i1, d0, d1)
}

/// A successful parse consumed input and built a new node.
pub open spec fn fresh_result(
    r: Result<ExpressionId, ParserError>,
    i0: ParseInput,
    i1: ParseInput,
    d0: ExpressionData,
    d1: ExpressionData,
) -> bool {
    r matches Ok(id) ==> {
        &&& d1.valid_id(id)
        &&& id.index_spec() >= d0.nodes().len()
        &&& i1.pos() > i0.pos()
    }
}


/// The outcome of parsing from a position: the tree and the position after
/// it, or the error.
pub type SpecParse = Result<(Tree, int), ParserError>;

/// The expression grammar, by precedence climbing: a leaf, then each
/// following operator whose left binding power is at least `min_bp`, with its
/// right operand parsed at the operator's right binding power.
pub open spec fn spec_pratt(toks: Seq<TokenAt>, pos: int, min_bp: u8) -> SpecParse
    decreases toks.len() - pos, 3nat,
{
    if 0 <= pos <= toks.len() {
        match spec_leaf(toks, pos) {
            Ok((l, p)) => if pos < p <= toks.len() {
                spec_fold(toks, l, p, min_bp)
            } else {
                Err(ParserError::UnexpectedEnd { pos: p as usize })
            },
            Err(e) => Err(e),
        }
    } else {
        Err(ParserError::UnexpectedEnd { pos: pos as usize })
    }
}

/// Folds operators into `lhs` from `pos` on, left to right.
pub open spec fn spec_fold(toks: Seq<TokenAt>, lhs: Tree, pos: int, min_bp: u8) -> SpecParse
    decreases toks.len() - pos, 0nat,
{
    if 0 <= pos < toks.len() && bin_op_of(toks[pos].token) is Some && binding_power(
        bin_op_of(toks[pos].token)->0,
    ).0 >= min_bp {
        let op = bin_op_of(toks[pos].token)->0;
        match spec_pratt(toks, pos + 1, binding_power(op).1) {
            Ok((rhs, p)) => if pos + 1 < p <= toks.len() {
                spec_fold(
                    toks,
                    Tree::Bin(
                        op,
                        Box::new(lhs),
                        Box::new(rhs),
                        span_union(tree_span(lhs), tree_span(rhs)),
                    ),
                    p,
                    min_bp,
                )
            } else {
                Err(ParserError::UnexpectedEnd { pos: p as usize })
            },
            Err(e) => Err(e),
        }
    } else {
        Ok((lhs, pos))
    }
}

/// A leaf: a parenthesised expression, a call, an identifier or a literal.
pub open spec fn spec_leaf(toks: Seq<TokenAt>, pos: int) -> SpecParse
    decreases toks.len() - pos, 2nat,
{
    if 0 <= pos < toks.len() {
        let t = toks[pos];
        match t.token {
            Token::LParen => spec_paren(toks, pos),
            Token::Identifier(n) => if pos + 1 < toks.len() && toks[pos + 1].token is LParen {
                spec_call(toks, pos)
            } else {
                Ok((Tree::Ident(n, t.span), pos + 1))
            },
            Token::StringLiteral(_) => Err(
                ParserError::Unsupported { pos: pos as usize, construct: Construct::StringLiteral },
            ),
            _ => match literal_of(t.token) {
                Some(l) => Ok((Tree::Lit(l, t.span), pos + 1)),
                None => Err(
                    ParserError::UnexpectedToken { pos: pos as usize, expected: Expected::Literal },
                ),
            },
        }
    } else {
        Err(ParserError::UnexpectedEnd { pos: pos as usize })
    }
}

/// `( E )`: the tree of `E` itself, parentheses leaving no trace.
pub open spec fn spec_paren(toks: Seq<TokenAt>, pos: int) -> SpecParse
    decreases toks.len() - pos, 1nat,
{
    if 0 <= pos < toks.len() && !(toks[pos].token is LParen) {
        Err(ParserError::UnexpectedToken { pos: pos as usize, expected: Expected::LeftParen })
    } else if 0 <= pos < toks.len() {
        match spec_pratt(toks, pos + 1, 0) {
            Ok((t, p)) => if 0 <= p < toks.len() && toks[p].token is RParen {
                Ok((t, p + 1))
            } else if 0 <= p < toks.len() {
                Err(ParserError::UnexpectedToken { pos: p as usize, expected: Expected::RightParen })
            } else {
                Err(ParserError::UnexpectedEnd { pos: p as usize })
            },
            Err(e) => Err(e),
        }
    } else {
        Err(ParserError::UnexpectedEnd { pos: pos as usize })
    }
}

/// `name ( E1 , ... , En )` with zero or more arguments; the call spans from
/// the opening to the closing parenthesis.
pub open spec fn spec_call(toks: Seq<TokenAt>, pos: int) -> SpecParse
    decreases toks.len() - pos, 1nat,
{
    if 0 <= pos && pos + 1 < toks.len() && toks[pos].token is Identifier {
        let n = toks[pos].token->Identifier_0;
        let lp = toks[pos + 1].span;
        if pos + 2 < toks.len() && toks[pos + 2].token is RParen {
            Ok((Tree::Call(n, Seq::empty(), span_union(lp, toks[pos + 2].span)), pos + 3))
        } else {
            match spec_args(toks, pos + 2, Seq::empty()) {
                Ok((ts, p)) => if 0 < p <= toks.len() {
                    Ok((Tree::Call(n, ts, span_union(lp, toks[p - 1].span)), p))
                } else {
                    Err(ParserError::UnexpectedEnd { pos: p as usize })
                },
                Err(e) => Err(e),
            }
        }
    } else {
        Err(ParserError::UnexpectedEnd { pos: pos as usize })
    }
}

/// The arguments of a call from `pos` on, after the ones in `done`, up to and
/// including the closing parenthesis.
pub open spec fn spec_args(toks: Seq<TokenAt>, pos: int, done: Seq<Tree>) -> Result<
    (Seq<Tree>, int),
    ParserError,
>
    decreases toks.len() - pos, 4nat,
{
    if 0 <= pos <= toks.len() {
        match spec_pratt(toks, pos, 0) {
            Ok((t, p)) => if pos < p < toks.len() {
                if toks[p].token is Comma {
                    spec_args(toks, p + 1, done.push(t))
                } else if toks[p].token is RParen {
                    Ok((done.push(t), p + 1))
                } else {
                    Err(
                        ParserError::UnexpectedToken {
                            pos: p as usize,
                            expected: Expected::ArgumentSeparator,
                        },
                    )
                }
            } else {
                Err(ParserError::UnexpectedEnd { pos: p as usize })
            },
            Err(e) => Err(e),
        }
    } else {
        Err(ParserError::UnexpectedEnd { pos: pos as usize })
    }
}

/// A parse result agrees with the grammar's outcome `s`: the same error, or
/// success with the grammar's tree at the grammar's end position.
pub open spec fn agrees(
    r: Result<ExpressionId, ParserError>,
    s: SpecParse,
    i1: ParseInput,
    d1: ExpressionData,
) -> bool {
    match s {
        Ok((t, p)) => r is Ok && tree_of(d1, r->Ok_0.index_spec()) == t && i1.pos() == p,
        Err(e) => r == Err::<ExpressionId, ParserError>(e),
    }
}

proof fn lemma_tree_stable(d0: ExpressionData, d1: ExpressionData, k: nat)
    requires
        extends(d0, d1),
        k < d0.nodes().len(),
    ensures
        tree_of(d1, k) == tree_of(d0, k),
    decreases k, 1nat,
{
    assert(d1.nodes()[k as int] == d0.nodes()[k as int]);
    match d0.nodes()[k as int] {
        Expression::Call(c) => {
            lemma_trees_stable(d0, d1, c.args@, k);
        },
        Expression::Invert(u) => {
            if u.inner.index_spec() < k {
                lemma_tree_stable(d0, d1, u.inner.index_spec());
            }
        },
        e => {
            if let Some((_, l, r)) = binary_view(e) {
                if l.index_spec() < k && r.index_spec() < k {
                    lemma_tree_stable(d0, d1, l.index_spec());
                    lemma_tree_stable(d0, d1, r.index_spec());
                }
            }
        },
    }
}

proof fn lemma_trees_stable(d0: ExpressionData, d1: ExpressionData, args: Seq<ExpressionId>, k: nat)
    requires
        extends(d0, d1),
        k <= d0.nodes().len(),
    ensures
        trees_of(d1, args, k) == trees_of(d0, args, k),
    decreases k, 0nat, args.len(),
{
    if args.len() > 0 {
        lemma_trees_stable(d0, d1, args.drop_last(), k);
        if args.last().index_spec() < k {
            lemma_tree_stable(d0, d1, args.last().index_spec());
        }
    }
}

proof fn lemma_trees_bound(d: ExpressionData, args: Seq<ExpressionId>, k: nat, k2: nat)
    requires
        k <= k2,
        forall|j: int| 0 <= j < args.len() ==> (#[trigger] args[j]).index_spec() < k,
    ensures
        trees_of(d, args, k2) == trees_of(d, args, k),
    decreases args.len(),
{
    if args.len() > 0 {
        assert forall|j: int| 0 <= j < args.drop_last().len() implies (#[trigger] args.drop_last()[j]).index_spec() < k by {
            assert(args.drop_last()[j] == args[j]);
        }
        lemma_trees_bound(d, args.drop_last(), k, k2);
        assert(args.last() == args[args.len() - 1]);
    }
}


proof fn lemma_binary_tree(d: ExpressionData, k: nat, op: BinaryOp, l: ExpressionId, r: ExpressionId)
    requires
        d.wf(),
        k < d.nodes().len(),
        l.index_spec() < k,
        r.index_spec() < k,
        d.nodes()[k as int] == crate::ast::binary_node(op, l, r),
        d.spans()[k as int] == span_union(d.spans()[l.index_spec() as int], d.spans()[r.index_spec() as int]),
    ensures
        tree_of(d, k) == Tree::Bin(
            op,
            Box::new(tree_of(d, l.index_spec())),
            Box::new(tree_of(d, r.index_spec())),
            span_union(tree_span(tree_of(d, l.index_spec())), tree_span(tree_of(d, r.index_spec()))),
        ),
{
    assert(tree_span(tree_of(d, l.index_spec())) == d.spans()[l.index_spec() as int]);
    assert(tree_span(tree_of(d, r.index_spec())) == d.spans()[r.index_spec() as int]);
}

proof fn lemma_extends_trans(d0: ExpressionData, d1: ExpressionData, d2: ExpressionData)
    requires
        extends(d0, d1),
        extends(d1, d2),
    ensures
        extends(d0, d2),
{
    assert forall|i: int| 0 <= i < d0.nodes().len() implies #[trigger] d2.nodes()[i]
        == d0.nodes()[i] && d2.spans()[i] == d0.spans()[i] by {
        assert(d1.nodes()[i] == d0.nodes()[i]);
        assert(d2.nodes()[i] == d1.nodes()[i]);
    }
}

proof fn lemma_extends_push(d0: ExpressionData, d1: ExpressionData)
    requires
        d0.wf(),
        d1.wf(),
        d1.nodes() == d0.nodes().push(d1.nodes().last()),
        d1.spans() == d0.spans().push(d1.spans().last()),
    ensures
        extends(d0, d1),
{
    assert forall|i: int| 0 <= i < d0.nodes().len() implies #[trigger] d1.nodes()[i]
        == d0.nodes()[i] && d1.spans()[i] == d0.spans()[i] by {
        assert(d1.nodes()[i] == d0.nodes().push(d1.nodes().last())[i]);
        assert(d1.spans()[i] == d0.spans().push(d1.spans().last())[i]);
    }
}

/// Looks up the binding powers of `op`.
pub fn infix_binding_power(op: BinaryOp) -> (r: (u8, u8))
    ensures
        r == binding_power(op),
{
    match op {
        BinaryOp::LogicalOr => (10, 11),
        BinaryOp::LogicalAnd => (20, 21),
        BinaryOp::BitOr => (30, 31),
        BinaryOp::BitXor => (40, 41),
        BinaryOp::BitAnd => (50, 51),
        BinaryOp::Equals | BinaryOp::NotEquals => (60, 61),
        BinaryOp::LessThan | BinaryOp::LessThanEqual | BinaryOp::GreaterThan | BinaryOp::GreaterThanEqual => (70, 71),
        BinaryOp::BitShiftL | BinaryOp::BitShiftR | BinaryOp::ArithShiftR => (80, 81),
        BinaryOp::Add | BinaryOp::Subtract => (90, 91),
        BinaryOp::Multiply | BinaryOp::Divide | BinaryOp::Modulo => (100, 101),
    }
}

/// Consumes the next token if it is a binary operator and returns the
/// operator with the token's span; otherwise consumes nothing.
pub fn try_parse_bin_op(input: &mut ParseInput) -> (r: Option<(BinaryOp, Span)>)
    requires
        old(input).wf(),
    ensures
        final(input).wf(),
        final(input).tokens() == old(input).tokens(),
        match r {
            Some((op, span)) => {
                &&& old(input).pos() < old(input).tokens().len()
                &&& bin_op_of(old(input).tokens()[old(input).pos()].token) == Some(op)
                &&& span == old(input).tokens()[old(input).pos()].span
                &&& final(input).pos() == old(input).pos() + 1
            },
            None => {
                &&& final(input).pos() == old(input).pos()
                &&& old(input).pos() < old(input).tokens().len() ==> bin_op_of(
                    old(input).tokens()[old(input).pos()].token,
                ) is None
            },
        },
{
    let next = match input.peek() {
        Ok(t) => t,
        Err(_) => return None,
    };
    let span = next.span;
    let op = match &next.token {
        Token::LogicalOr => BinaryOp::LogicalOr,
        Token::LogicalAnd => BinaryOp::LogicalAnd,
        Token::BitOr => BinaryOp::BitOr,
        Token::BitXor => BinaryOp::BitXor,
        Token::BitAnd => BinaryOp::BitAnd,
        Token::EQ => BinaryOp::Equals,
        Token::NEQ => BinaryOp::NotEquals,
        Token::LT => BinaryOp::LessThan,
        Token::LTE => BinaryOp::LessThanEqual,
        Token::GT => BinaryOp::GreaterThan,
        Token::GTE => BinaryOp::GreaterThanEqual,
        Token::BitShiftL => BinaryOp::BitShiftL,
        Token::BitShiftR => BinaryOp::BitShiftR,
        Token::ArithShiftR => BinaryOp::ArithShiftR,
        Token::Add => BinaryOp::Add,
        Token::Sub => BinaryOp::Subtract,
        Token::Mult => BinaryOp::Multiply,
        Token::Div => BinaryOp::Divide,
        Token::Mod => BinaryOp::Modulo,
        _ => return None,
    };
    input.advance();
    Some((op, span))
}


/// Parses one expression starting at the cursor and returns the handle of its
/// root. On success the tree is built in `data` and the cursor stands after
/// it. A string literal where the expression should start is refused as an
/// unsupported construct, and nothing is allocated.
pub fn parse_expression(input: &mut ParseInput, data: &mut ExpressionData) -> (r: Result<
    ExpressionId,
    ParserError,
>)
    requires
        old(input).wf(),
        old(data).wf(),
        has_room(*old(input), *old(data)),
    ensures
        agrees(r, spec_pratt(old(input).tokens(), old(input).pos(), 0), *final(input), *final(data)),
        parse_frame(*old(input), *final(input), *old(data), *final(data)),
        fresh_result(r, *old(input), *final(input), *old(data), *final(data)),
        old(input).pos() == old(input).tokens().len() ==> r == Err::<ExpressionId, ParserError>(
            ParserError::UnexpectedEnd { pos: old(input).pos() as usize },
        ),
        old(input).pos() < old(input).tokens().len() && old(input).tokens()[old(
            input,
        ).pos()].token is StringLiteral ==> {
            &&& r == Err::<ExpressionId, ParserError>(
                ParserError::Unsupported {
                    pos: old(input).pos() as usize,
                    construct: Construct::StringLiteral,
                },
            )
            &&& *final(data) == *old(data)
        },
        lone_literal(*old(input)) ==> lone_literal_parsed(r, *old(input), *old(data), *final(data)),
    decreases old(input).remaining(), 4nat,
{
    pratt_parse(input, data, 0)
}

/// The input holds exactly one more token, and it is a literal.
pub open spec fn lone_literal(input: ParseInput) -> bool {
    &&& input.remaining() == 1
    &&& literal_of(input.tokens()[input.pos()].token) is Some
}

/// The result is the leaf of the input's single literal token.
pub open spec fn lone_literal_parsed(
    r: Result<ExpressionId, ParserError>,
    i0: ParseInput,
    d0: ExpressionData,
    d1: ExpressionData,
) -> bool {
    let t = i0.tokens()[i0.pos()];
    &&& r is Ok
    &&& r->Ok_0.index_spec() == d0.nodes().len()
    &&& d1.nodes() == d0.nodes().push(Expression::Literal(literal_of(t.token)->0))
    &&& d1.spans() == d0.spans().push(t.span)
}

/// Precedence climbing: parses a leaf, then folds in every following
/// operator whose left binding power is at least `min_bp`.
fn pratt_parse(input: &mut ParseInput, data: &mut ExpressionData, min_bp: u8) -> (r: Result<
    ExpressionId,
    ParserError,
>)
    requires
        old(input).wf(),
        old(data).wf(),
        has_room(*old(input), *old(data)),
    ensures
        agrees(r, spec_pratt(old(input).tokens(), old(input).pos(), min_bp), *final(input), *final(data)),
        parse_frame(*old(input), *final(input), *old(data), *final(data)),
        fresh_result(r, *old(input), *final(input), *old(data), *final(data)),
        old(input).pos() == old(input).tokens().len() ==> r == Err::<ExpressionId, ParserError>(
            ParserError::UnexpectedEnd { pos: old(input).pos() as usize },
        ),
        old(input).pos() < old(input).tokens().len() && old(input).tokens()[old(
            input,
        ).pos()].token is StringLiteral ==> {
            &&& r == Err::<ExpressionId, ParserError>(
                ParserError::Unsupported {
                    pos: old(input).pos() as usize,
                    construct: Construct::StringLiteral,
                },
            )
            &&& *final(data) == *old(data)
        },
        lone_literal(*old(input)) ==> lone_literal_parsed(r, *old(input), *old(data), *final(data)),
    decreases old(input).remaining(), 3nat,
{
    let ghost i0 = *input;
    let ghost d0 = *data;
    let mut lhs = parse_leaf(input, data)?;
    let ghost d1 = *data;
    loop
        invariant
            i0 == *old(input),
            d0 == *old(data),
            i0.wf(),
            d0.wf(),
            has_room(i0, d0),
            parse_frame(i0, *input, d0, *data),
            data.valid_id(lhs),
            lhs.index_spec() >= d0.nodes().len(),
            input.pos() > i0.pos(),
            lone_literal(i0) ==> input.pos() == input.tokens().len() && lhs.index_spec()
                == d0.nodes().len() && *data == d1,
            i0.pos() < i0.tokens().len() ==> !(i0.tokens()[i0.pos()].token is StringLiteral),
            spec_pratt(i0.tokens(), i0.pos(), min_bp) == spec_fold(
                i0.tokens(),
                tree_of(*data, lhs.index_spec()),
                input.pos(),
                min_bp,
            ),
        ensures
            spec_pratt(i0.tokens(), i0.pos(), min_bp) == Ok::<(Tree, int), ParserError>(
                (tree_of(*data, lhs.index_spec()), input.pos()),
            ),
            parse_frame(i0, *input, d0, *data),
            data.valid_id(lhs),
            lhs.index_spec() >= d0.nodes().len(),
            input.pos() > i0.pos(),
            lone_literal(i0) ==> lhs.index_spec() == d0.nodes().len() && *data == d1,
        decreases input.remaining(),
    {
        let checkpoint = input.checkpoint();
        match try_parse_bin_op(input) {
            Some((op, _span)) => {
                let (l_bp, r_bp) = infix_binding_power(op);
                if l_bp < min_bp {
                    input.restore(checkpoint);
                    break;
                }
                let ghost d2 = *data;
                let rhs = pratt_parse(input, data, r_bp)?;
                let ghost d3 = *data;
                let ghost old_lhs = lhs;
                lhs = data.alloc_bin_op(&op, lhs, rhs);
                proof {
                    lemma_extends_trans(d0, d2, d3);
                    lemma_extends_push(d3, *data);
                    lemma_extends_trans(d0, d3, *data);
                    lemma_extends_trans(d2, d3, *data);
                    lemma_tree_stable(d2, *data, old_lhs.index_spec());
                    lemma_tree_stable(d3, *data, rhs.index_spec());
                    lemma_binary_tree(*data, lhs.index_spec(), op, old_lhs, rhs);
                }
            },
            None => break,
        }
    }
    Ok(lhs)
}

/// Parses a leaf: a parenthesised expression, a call, an identifier or a
/// literal, chosen by the next two tokens.
pub fn parse_leaf(input: &mut ParseInput, data: &mut ExpressionData) -> (r: Result<
    ExpressionId,
    ParserError,
>)
    requires
        old(input).wf(),
        old(data).wf(),
        has_room(*old(input), *old(data)),
    ensures
        agrees(r, spec_leaf(old(input).tokens(), old(input).pos()), *final(input), *final(data)),
        parse_frame(*old(input), *final(input), *old(data), *final(data)),
        fresh_result(r, *old(input), *final(input), *old(data), *final(data)),
        old(input).pos() == old(input).tokens().len() ==> r == Err::<ExpressionId, ParserError>(
            ParserError::UnexpectedEnd { pos: old(input).pos() as usize },
        ),
        old(input).pos() < old(input).tokens().len() ==> ({
            let t = old(input).tokens()[old(input).pos()];
            &&& t.token is StringLiteral ==> {
                &&& r == Err::<ExpressionId, ParserError>(
                    ParserError::Unsupported {
                        pos: old(input).pos() as usize,
                        construct: Construct::StringLiteral,
                    },
                )
                &&& *final(data) == *old(data)
            }
            &&& literal_of(t.token) is Some ==> {
                &&& r matches Ok(id) && id.index_spec() == old(data).nodes().len()
                &&& final(data).nodes() == old(data).nodes().push(
                    Expression::Literal(literal_of(t.token)->0),
                )
                &&& final(data).spans() == old(data).spans().push(t.span)
                &&& final(input).pos() == old(input).pos() + 1
            }
        }),
    decreases old(input).remaining(), 2nat,
{
    if matches!(input.peek()?.token, Token::LParen) {
        return parse_parenthetical(input, data);
    }
    if matches!(input.peekn(0), Some(Token::Identifier(_))) && matches!(
        input.peekn(1),
        Some(Token::LParen)
    ) {
        return parse_call(input, data);
    }
    if matches!(input.peek()?.token, Token::Identifier(_)) {
        return parse_ident_expr(input, data);
    }
    parse_literal(input, data)
}

/// Parses `( expression )` and returns the inner expression itself: the
/// parentheses leave no node behind.
pub fn parse_parenthetical(input: &mut ParseInput, data: &mut ExpressionData) -> (r: Result<
    ExpressionId,
    ParserError,
>)
    requires
        old(input).wf(),
        old(data).wf(),
        has_room(*old(input), *old(data)),
    ensures
        agrees(r, spec_paren(old(input).tokens(), old(input).pos()), *final(input), *final(data)),
        parse_frame(*old(input), *final(input), *old(data), *final(data)),
        fresh_result(r, *old(input), *final(input), *old(data), *final(data)),
        r is Ok ==> {
            &&& old(input).pos() + 2 < final(input).pos()
            &&& old(input).tokens()[old(input).pos()].token is LParen
            &&& old(input).tokens()[final(input).pos() - 1].token is RParen
        },
    decreases old(input).remaining(), 1nat,
{
    let _left = input.assert_next(Punct::LParen, Expected::LeftParen)?;
    let inner = parse_expression(input, data)?;
    let _right = input.assert_next(Punct::RParen, Expected::RightParen)?;
    Ok(inner)
}

/// Parses an identifier into an identifier leaf spanning its token. On any
/// other token nothing is consumed or allocated.
pub fn parse_ident_expr(input: &mut ParseInput, data: &mut ExpressionData) -> (r: Result<
    ExpressionId,
    ParserError,
>)
    requires
        old(input).wf(),
        old(data).wf(),
        has_room(*old(input), *old(data)),
    ensures
        parse_frame(*old(input), *final(input), *old(data), *final(data)),
        old(input).pos() == old(input).tokens().len() ==> r == Err::<ExpressionId, ParserError>(
            ParserError::UnexpectedEnd { pos: old(input).pos() as usize },
        ),
        old(input).pos() < old(input).tokens().len() ==> ({
            let t = old(input).tokens()[old(input).pos()];
            match t.token {
                Token::Identifier(name) => {
                    &&& r matches Ok(id) && id.index_spec() == old(data).nodes().len()
                    &&& final(data).nodes() == old(data).nodes().push(
                        Expression::Identifier(Identifier { ident: name }),
                    )
                    &&& final(data).spans() == old(data).spans().push(t.span)
                    &&& final(input).pos() == old(input).pos() + 1
                },
                _ => {
                    &&& r == Err::<ExpressionId, ParserError>(
                        ParserError::UnexpectedToken {
                            pos: old(input).pos() as usize,
                            expected: Expected::Identifier,
                        },
                    )
                    &&& *final(data) == *old(data)
                    &&& final(input).pos() == old(input).pos()
                },
            }
        }),
{
    let checkpoint = input.checkpoint();
    let next = input.peek()?;
    let span = next.span;
    match next.token {
        Token::Identifier(ident) => {
            input.advance();
            Ok(data.alloc_ident(ident, span))
        },
        _ => {
            input.restore(checkpoint);
            Err(ParserError::UnexpectedToken { pos: checkpoint, expected: Expected::Identifier })
        },
    }
}

/// Parses a literal token into a literal leaf spanning the token. A string
/// literal is an unsupported construct; any other token is unexpected. On
/// failure nothing is consumed or allocated.
pub fn parse_literal(input: &mut ParseInput, data: &mut ExpressionData) -> (r: Result<
    ExpressionId,
    ParserError,
>)
    requires
        old(input).wf(),
        old(data).wf(),
        has_room(*old(input), *old(data)),
    ensures
        parse_frame(*old(input), *final(input), *old(data), *final(data)),
        old(input).pos() == old(input).tokens().len() ==> r == Err::<ExpressionId, ParserError>(
            ParserError::UnexpectedEnd { pos: old(input).pos() as usize },
        ),
        old(input).pos() < old(input).tokens().len() ==> ({
            let t = old(input).tokens()[old(input).pos()];
            match literal_of(t.token) {
                Some(lit) => {
                    &&& r matches Ok(id) && id.index_spec() == old(data).nodes().len()
                    &&& final(data).nodes() == old(data).nodes().push(Expression::Literal(lit))
                    &&& final(data).spans() == old(data).spans().push(t.span)
                    &&& final(input).pos() == old(input).pos() + 1
                },
                None => {
                    &&& r == Err::<ExpressionId, ParserError>(
                        if t.token is StringLiteral {
                            ParserError::Unsupported {
                                pos: old(input).pos() as usize,
                                construct: Construct::StringLiteral,
                            }
                        } else {
                            ParserError::UnexpectedToken {
                                pos: old(input).pos() as usize,
                                expected: Expected::Literal,
                            }
                        },
                    )
                    &&& *final(data) == *old(data)
                    &&& final(input).pos() == old(input).pos()
                },
            }
        }),
{
    let pos = input.position();
    let next = input.peek()?;
    let span = next.span;
    let literal = match &next.token {
        Token::StringLiteral(_) => {
            return Err(
                ParserError::Unsupported { pos, construct: Construct::StringLiteral },
            );
        },
        Token::DecIntLiteral(value) => Literal::Integer(*value),
        Token::DecFloatLiteral(value) => Literal::Float(*value),
        Token::BinLiteral(value) => Literal::Integer(*value),
        Token::HexLiteral(value) => Literal::Integer(*value),
        _ => return Err(ParserError::UnexpectedToken { pos, expected: Expected::Literal }),
    };
    input.advance();
    Ok(data.alloc_literal(literal, span))
}

/// Parses `name ( arg, ... )` with zero or more arguments. The call node spans
/// from the opening to the closing parenthesis.
fn parse_call(input: &mut ParseInput, data: &mut ExpressionData) -> (r: Result<
    ExpressionId,
    ParserError,
>)
    requires
        old(input).wf(),
        old(data).wf(),
        has_room(*old(input), *old(data)),
        old(input).pos() + 1 < old(input).tokens().len(),
        old(input).tokens()[old(input).pos()].token is Identifier,
        old(input).tokens()[old(input).pos() + 1].token is LParen,
    ensures
        agrees(r, spec_call(old(input).tokens(), old(input).pos()), *final(input), *final(data)),
        parse_frame(*old(input), *final(input), *old(data), *final(data)),
        fresh_result(r, *old(input), *final(input), *old(data), *final(data)),
        r matches Ok(id) ==> {
            let k = old(input).pos();
            let e = old(input).tokens()[final(input).pos() - 1];
            &&& k + 2 < final(input).pos()
            &&& old(input).tokens()[k].token matches Token::Identifier(name)
                && final(data).nodes()[id.index_spec() as int] matches Expression::Call(c)
                && c.ident == name
            &&& old(input).tokens()[k + 1].token is LParen
            &&& e.token is RParen
            &&& final(data).spans()[id.index_spec() as int] == span_union(
                old(input).tokens()[k + 1].span,
                e.span,
            )
        },
    decreases old(input).remaining(), 1nat,
{
    let ghost i0 = *input;
    let ghost d0 = *data;
    let pos = input.position();
    let first = input.peek()?;
    let ident = match first.token {
        Token::Identifier(ident) => ident,
        _ => return Err(ParserError::UnexpectedToken { pos, expected: Expected::Identifier }),
    };
    input.advance();
    let lparen = input.assert_next(Punct::LParen, Expected::LeftParen)?;
    let mut args: Vec<ExpressionId> = Vec::new();
    let mut rparen = lparen;
    proof {
        assert(trees_of(*data, args@, data.nodes().len()) =~= Seq::<Tree>::empty());
    }
    if matches!(input.peekn(0), Some(Token::RParen)) {
        rparen = input.assert_next(Punct::RParen, Expected::RightParen)?;
    } else {
        loop
            invariant_except_break
                spec_args(i0.tokens(), i0.pos() + 2, Seq::empty()) == spec_args(
                    i0.tokens(),
                    input.pos(),
                    trees_of(*data, args@, data.nodes().len()),
                ),
            invariant
                i0 == *old(input),
                d0 == *old(data),
                i0.wf(),
                d0.wf(),
                has_room(i0, d0),
                parse_frame(i0, *input, d0, *data),
                input.pos() >= i0.pos() + 2,
                data.nodes().len() + input.remaining() + 2 <= d0.nodes().len() + i0.remaining(),
                i0.tokens()[i0.pos()].token matches Token::Identifier(name) && name == ident,
                i0.tokens()[i0.pos() + 1].token is LParen,
                i0.tokens()[i0.pos() + 1].span == lparen,
                forall|j: int| 0 <= j < args@.len() ==> data.valid_id(#[trigger] args@[j]),
                !(i0.pos() + 2 < i0.tokens().len() && i0.tokens()[i0.pos() + 2].token is RParen),
            ensures
                spec_args(i0.tokens(), i0.pos() + 2, Seq::empty()) == Ok::<
                    (Seq<Tree>, int),
                    ParserError,
                >((trees_of(*data, args@, data.nodes().len()), input.pos() as int)),
                parse_frame(i0, *input, d0, *data),
                input.pos() >= i0.pos() + 3,
                data.nodes().len() + input.remaining() + 3 <= d0.nodes().len() + i0.remaining(),
                forall|j: int| 0 <= j < args@.len() ==> data.valid_id(#[trigger] args@[j]),
                input.tokens()[input.pos() - 1].token is RParen,
                input.tokens()[input.pos() - 1].span == rparen,
            decreases input.remaining(),
        {
            let ghost d_before = *data;
            let ghost args_before = args@;
            let arg = parse_expression(input, data)?;
            args.push(arg);
            proof {
                let n0 = d_before.nodes().len();
                let n1 = data.nodes().len();
                assert forall|j: int| 0 <= j < args_before.len() implies (#[trigger] args_before[j]).index_spec() < n0 by {
                    assert(d_before.valid_id(args_before[j]));
                }
                lemma_trees_bound(*data, args_before, n0, n1);
                lemma_trees_stable(d_before, *data, args_before, n0);
                assert(args@.drop_last() =~= args_before);
                assert(args@.last() == arg);
                assert(trees_of(*data, args@, n1) == trees_of(d_before, args_before, n0).push(
                    tree_of(*data, arg.index_spec()),
                ));
            }
            let at = input.position();
            let next = input.peek()?;
            let span = next.span;
            let is_comma = matches!(next.token, Token::Comma);
            let is_close = matches!(next.token, Token::RParen);
            if is_comma {
                input.advance();
            } else if is_close {
                input.advance();
                rparen = span;
                break;
            } else {
                return Err(
                    ParserError::UnexpectedToken { pos: at, expected: Expected::ArgumentSeparator },
                );
            }
        }
    }
    let span = crate::span::merge(&lparen, &rparen);
    let ghost d3 = *data;
    let ghost a = args@;
    let id = data.alloc_call(ident, args, span);
    proof {
        lemma_extends_push(d3, *data);
        lemma_extends_trans(d0, d3, *data);
        lemma_trees_stable(d3, *data, a, d3.nodes().len());
    }
    Ok(id)
}


/// Every operator is left-associative: its right binding power is exactly one
/// above its left, so an operator of the same tier to the right is folded by
/// the enclosing loop. Tiers, from loosest to tightest: logical or, logical
/// and, bitwise or, xor, bitwise and, equality, ordering, shifts, additive,
/// multiplicative.
pub proof fn lemma_binding_power_order(a: BinaryOp, b: BinaryOp)
    ensures
        binding_power(a).1 == binding_power(a).0 + 1,
        binding_power(a).0 > 0,
        binding_power(a).0 < binding_power(b).0 <==> op_tier(a) < op_tier(b),
{
}

/// The precedence tier of an operator, counted from the loosest.
pub open spec fn op_tier(op: BinaryOp) -> nat {
    match op {
        BinaryOp::LogicalOr => 0,
        BinaryOp::LogicalAnd => 1,
        BinaryOp::BitOr => 2,
        BinaryOp::BitXor => 3,
        BinaryOp::BitAnd => 4,
        BinaryOp::Equals | BinaryOp::NotEquals => 5,
        BinaryOp::LessThan | BinaryOp::LessThanEqual | BinaryOp::GreaterThan
        | BinaryOp::GreaterThanEqual => 6,
        BinaryOp::BitShiftL | BinaryOp::BitShiftR | BinaryOp::ArithShiftR => 7,
        BinaryOp::Add | BinaryOp::Subtract => 8,
        BinaryOp::Multiply | BinaryOp::Divide | BinaryOp::Modulo => 9,
    }
}


/// The leaf tree of a literal token.
pub open spec fn lit_leaf(t: TokenAt) -> Tree {
    Tree::Lit(literal_of(t.token)->0, t.span)
}

pub open spec fn bin_tree(op: BinaryOp, l: Tree, r: Tree) -> Tree {
    Tree::Bin(op, Box::new(l), Box::new(r), span_union(tree_span(l), tree_span(r)))
}

/// Precedence and associativity on `a o1 b o2 c` with literal operands: the
/// second operator takes `b` when it binds tighter than the first, and
/// otherwise the first operation becomes its left operand.
pub proof fn lemma_two_operators(toks: Seq<TokenAt>, pos: int)
    requires
        0 <= pos,
        pos + 5 == toks.len(),
        literal_of(toks[pos].token) is Some,
        literal_of(toks[pos + 2].token) is Some,
        literal_of(toks[pos + 4].token) is Some,
        bin_op_of(toks[pos + 1].token) is Some,
        bin_op_of(toks[pos + 3].token) is Some,
    ensures
        ({
            let o1 = bin_op_of(toks[pos + 1].token)->0;
            let o2 = bin_op_of(toks[pos + 3].token)->0;
            let a = lit_leaf(toks[pos]);
            let b = lit_leaf(toks[pos + 2]);
            let c = lit_leaf(toks[pos + 4]);
            &&& binding_power(o2).0 > binding_power(o1).0 ==> spec_pratt(toks, pos, 0) == Ok::<
                (Tree, int),
                ParserError,
            >((bin_tree(o1, a, bin_tree(o2, b, c)), pos + 5))
            &&& binding_power(o2).0 <= binding_power(o1).0 ==> spec_pratt(toks, pos, 0) == Ok::<
                (Tree, int),
                ParserError,
            >((bin_tree(o2, bin_tree(o1, a, b), c), pos + 5))
        }),
{
    let o1 = bin_op_of(toks[pos + 1].token)->0;
    let o2 = bin_op_of(toks[pos + 3].token)->0;
    let a = lit_leaf(toks[pos]);
    let b = lit_leaf(toks[pos + 2]);
    let c = lit_leaf(toks[pos + 4]);
    lemma_binding_power_order(o1, o2);
    lemma_binding_power_order(o2, o1);
    // the leaves
    assert(spec_leaf(toks, pos) == Ok::<(Tree, int), ParserError>((a, pos + 1)));
    assert(spec_leaf(toks, pos + 2) == Ok::<(Tree, int), ParserError>((b, pos + 3)));
    assert(spec_leaf(toks, pos + 4) == Ok::<(Tree, int), ParserError>((c, pos + 5)));
    // nothing follows the last operand
    assert(spec_fold(toks, c, pos + 5, binding_power(o2).1) == Ok::<(Tree, int), ParserError>((c, pos + 5)));
    assert(spec_pratt(toks, pos + 4, binding_power(o2).1) == Ok::<(Tree, int), ParserError>((c, pos + 5)));
    if binding_power(o2).0 > binding_power(o1).0 {
        let bc = bin_tree(o2, b, c);
        assert(spec_fold(toks, bc, pos + 5, binding_power(o1).1) == Ok::<(Tree, int), ParserError>((bc, pos + 5)));
        assert(spec_fold(toks, b, pos + 3, binding_power(o1).1) == Ok::<(Tree, int), ParserError>((bc, pos + 5)));
        assert(spec_pratt(toks, pos + 2, binding_power(o1).1) == Ok::<(Tree, int), ParserError>((bc, pos + 5)));
        let abc = bin_tree(o1, a, bc);
        assert(spec_fold(toks, abc, pos + 5, 0) == Ok::<(Tree, int), ParserError>((abc, pos + 5)));
        assert(spec_fold(toks, a, pos + 1, 0) == Ok::<(Tree, int), ParserError>((abc, pos + 5)));
    } else {
        assert(spec_fold(toks, b, pos + 3, binding_power(o1).1) == Ok::<(Tree, int), ParserError>((b, pos + 3)));
        assert(spec_pratt(toks, pos + 2, binding_power(o1).1) == Ok::<(Tree, int), ParserError>((b, pos + 3)));
        let ab = bin_tree(o1, a, b);
        let abc = bin_tree(o2, ab, c);
        assert(spec_fold(toks, abc, pos + 5, 0) == Ok::<(Tree, int), ParserError>((abc, pos + 5)));
        assert(spec_fold(toks, ab, pos + 3, 0) == Ok::<(Tree, int), ParserError>((abc, pos + 5)));
        assert(spec_fold(toks, a, pos + 1, 0) == Ok::<(Tree, int), ParserError>((abc, pos + 5)));
    }
}


/// Parentheses are transparent: a leaf `( E )` is exactly the tree of `E`,
/// with `E`'s own span, and the cursor stands after the `)`.
pub proof fn lemma_paren_transparent(toks: Seq<TokenAt>, pos: int)
    requires
        0 <= pos < toks.len(),
        toks[pos].token is LParen,
        spec_pratt(toks, pos + 1, 0) is Ok,
        pos < spec_pratt(toks, pos + 1, 0)->Ok_0.1 < toks.len(),
        toks[spec_pratt(toks, pos + 1, 0)->Ok_0.1].token is RParen,
    ensures
        spec_leaf(toks, pos) == Ok::<(Tree, int), ParserError>(
            (spec_pratt(toks, pos + 1, 0)->Ok_0.0, spec_pratt(toks, pos + 1, 0)->Ok_0.1 + 1),
        ),
{
    assert(spec_leaf(toks, pos) == spec_paren(toks, pos));
}

} // verus!
