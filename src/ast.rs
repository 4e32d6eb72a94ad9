use crate::span::{merge, span_union, Span};
use crate::token::{Construct, NameId, Token};
use cranelift_entity::{EntityRef, PrimaryMap};
use vstd::prelude::*;

verus! {

/// Handle of an expression node, dense and unique within one `ExpressionData`.
#[derive(Copy, Clone, PartialEq, Eq, Hash, PartialOrd, Ord, Debug, Structural)]
pub struct ExpressionId(u32);

impl ExpressionId {
    /// The allocation order of the node this handle refers to.
    pub closed spec fn index_spec(self) -> nat {
        self.0 as nat
    }
}

impl EntityRef for ExpressionId {
    fn new(index: usize) -> Self {
        ExpressionId(index as u32)
    }

    fn index(self) -> usize {
        self.0 as usize
    }
}

/// The operator of a binary expression.
#[derive(Copy, Clone, PartialEq, Eq, Debug, Structural)]
pub enum BinaryOp {
    // Arithmetic Operations
    Multiply,
    Divide,
    Modulo,
    Add,
    Subtract,

    // Shifting Operations
    BitShiftL,
    BitShiftR,
    ArithShiftR,

    // Comparisons
    LessThan,
    LessThanEqual,
    GreaterThan,
    GreaterThanEqual,
    Equals,
    NotEquals,

    // Bitwise Operations
    BitAnd,
    BitXor,
    BitOr,

    // Logical Operations
    LogicalAnd,
    LogicalOr,
}

/// An expression node; children are referred to by handle.
#[derive(Clone, Debug)]
pub enum Expression {
    Identifier(Identifier),
    Literal(Literal),
    Call(Call),
    // Unary Expressions
    Invert(Invert),
    // Arithmetic Operations
    Multiply(Multiply),
    Divide(Divide),
    Modulo(Modulo),
    Add(Add),
    Subtract(Subtract),
    // Shifting Operations
    BitShiftL(BitShiftL),
    BitShiftR(BitShiftR),
    ArithShiftR(ArithShiftR),
    // Comparisons
    LessThan(LessThan),
    LessThanEqual(LessThanEqual),
    GreaterThan(GreaterThan),
    GreaterThanEqual(GreaterThanEqual),
    Equals(Equals),
    NotEquals(NotEquals),
    // Bitwise Operations
    BitAnd(BitAnd),
    BitXor(BitXor),
    BitOr(BitOr),
    // Logical Operations
    LogicalAnd(LogicalAnd),
    LogicalOr(LogicalOr),
}

#[derive(Copy, Clone, PartialEq, Eq, Debug, Structural)]
pub struct Identifier {
    pub ident: NameId,
}

/// A literal value. A float is kept as its IEEE-754 bit pattern, so two
/// float literals are equal exactly when their bits are.
#[derive(Copy, Clone, PartialEq, Eq, Debug, Structural)]
pub enum Literal {
    Integer(u64),
    Float(u64),
}

#[derive(Clone, Debug)]
pub struct Call {
    pub ident: NameId,
    pub args: Vec<ExpressionId>,
}

#[derive(Copy, Clone, Debug)]
pub struct Invert {
    pub inner: ExpressionId,
}

#[derive(Copy, Clone, Debug)]
pub struct Multiply {
    pub left: ExpressionId,
    pub right: ExpressionId,
}

#[derive(Copy, Clone, Debug)]
pub struct Divide {
    pub left: ExpressionId,
    pub right: ExpressionId,
}

#[derive(Copy, Clone, Debug)]
pub struct Modulo {
    pub left: ExpressionId,
    pub right: ExpressionId,
}

#[derive(Copy, Clone, Debug)]
pub struct Add {
    pub left: ExpressionId,
    pub right: ExpressionId,
}

#[derive(Copy, Clone, Debug)]
pub struct Subtract {
    pub left: ExpressionId,
    pub right: ExpressionId,
}

#[derive(Copy, Clone, Debug)]
pub struct BitShiftL {
    pub left: ExpressionId,
    pub right: ExpressionId,
}

#[derive(Copy, Clone, Debug)]
pub struct BitShiftR {
    pub left: ExpressionId,
    pub right: ExpressionId,
}

#[derive(Copy, Clone, Debug)]
pub struct ArithShiftR {
    pub left: ExpressionId,
    pub right: ExpressionId,
}

#[derive(Copy, Clone, Debug)]
pub struct LessThan {
    pub left: ExpressionId,
    pub right: ExpressionId,
}

#[derive(Copy, Clone, Debug)]
pub struct LessThanEqual {
    pub left: ExpressionId,
    pub right: ExpressionId,
}

#[derive(Copy, Clone, Debug)]
pub struct GreaterThan {
    pub left: ExpressionId,
    pub right: ExpressionId,
}

#[derive(Copy, Clone, Debug)]
pub struct GreaterThanEqual {
    pub left: ExpressionId,
    pub right: ExpressionId,
}

#[derive(Copy, Clone, Debug)]
pub struct Equals {
    pub left: ExpressionId,
    pub right: ExpressionId,
}

#[derive(Copy, Clone, Debug)]
pub struct NotEquals {
    pub left: ExpressionId,
    pub right: ExpressionId,
}

#[derive(Copy, Clone, Debug)]
pub struct BitAnd {
    pub left: ExpressionId,
    pub right: ExpressionId,
}

#[derive(Copy, Clone, Debug)]
pub struct BitXor {
    pub left: ExpressionId,
    pub right: ExpressionId,
}

#[derive(Copy, Clone, Debug)]
pub struct BitOr {
    pub left: ExpressionId,
    pub right: ExpressionId,
}

#[derive(Copy, Clone, Debug)]
pub struct LogicalAnd {
    pub left: ExpressionId,
    pub right: ExpressionId,
}

#[derive(Copy, Clone, Debug)]
pub struct LogicalOr {
    pub left: ExpressionId,
    pub right: ExpressionId,
}

/// The operator and operands of a binary node, `None` for any other node.
pub open spec fn binary_view(e: Expression) -> Option<(BinaryOp, ExpressionId, ExpressionId)> {
    match e {
        Expression::Multiply(b) => Some((BinaryOp::Multiply, b.left, b.right)),
        Expression::Divide(b) => Some((BinaryOp::Divide, b.left, b.right)),
        Expression::Modulo(b) => Some((BinaryOp::Modulo, b.left, b.right)),
        Expression::Add(b) => Some((BinaryOp::Add, b.left, b.right)),
        Expression::Subtract(b) => Some((BinaryOp::Subtract, b.left, b.right)),
        Expression::BitShiftL(b) => Some((BinaryOp::BitShiftL, b.left, b.right)),
        Expression::BitShiftR(b) => Some((BinaryOp::BitShiftR, b.left, b.right)),
        Expression::ArithShiftR(b) => Some((BinaryOp::ArithShiftR, b.left, b.right)),
        Expression::LessThan(b) => Some((BinaryOp::LessThan, b.left, b.right)),
        Expression::LessThanEqual(b) => Some((BinaryOp::LessThanEqual, b.left, b.right)),
        Expression::GreaterThan(b) => Some((BinaryOp::GreaterThan, b.left, b.right)),
        Expression::GreaterThanEqual(b) => Some((BinaryOp::GreaterThanEqual, b.left, b.right)),
        Expression::Equals(b) => Some((BinaryOp::Equals, b.left, b.right)),
        Expression::NotEquals(b) => Some((BinaryOp::NotEquals, b.left, b.right)),
        Expression::BitAnd(b) => Some((BinaryOp::BitAnd, b.left, b.right)),
        Expression::BitXor(b) => Some((BinaryOp::BitXor, b.left, b.right)),
        Expression::BitOr(b) => Some((BinaryOp::BitOr, b.left, b.right)),
        Expression::LogicalAnd(b) => Some((BinaryOp::LogicalAnd, b.left, b.right)),
        Expression::LogicalOr(b) => Some((BinaryOp::LogicalOr, b.left, b.right)),
        _ => None,
    }
}

/// The binary node with operator `op` and operands `left`, `right`.
pub open spec fn binary_node(op: BinaryOp, left: ExpressionId, right: ExpressionId) -> Expression {
    match op {
        BinaryOp::Multiply => Expression::Multiply(Multiply { left, right }),
        BinaryOp::Divide => Expression::Divide(Divide { left, right }),
        BinaryOp::Modulo => Expression::Modulo(Modulo { left, right }),
        BinaryOp::Add => Expression::Add(Add { left, right }),
        BinaryOp::Subtract => Expression::Subtract(Subtract { left, right }),
        BinaryOp::BitShiftL => Expression::BitShiftL(BitShiftL { left, right }),
        BinaryOp::BitShiftR => Expression::BitShiftR(BitShiftR { left, right }),
        BinaryOp::ArithShiftR => Expression::ArithShiftR(ArithShiftR { left, right }),
        BinaryOp::LessThan => Expression::LessThan(LessThan { left, right }),
        BinaryOp::LessThanEqual => Expression::LessThanEqual(LessThanEqual { left, right }),
        BinaryOp::GreaterThan => Expression::GreaterThan(GreaterThan { left, right }),
        BinaryOp::GreaterThanEqual => Expression::GreaterThanEqual(GreaterThanEqual { left, right }),
        BinaryOp::Equals => Expression::Equals(Equals { left, right }),
        BinaryOp::NotEquals => Expression::NotEquals(NotEquals { left, right }),
        BinaryOp::BitAnd => Expression::BitAnd(BitAnd { left, right }),
        BinaryOp::BitXor => Expression::BitXor(BitXor { left, right }),
        BinaryOp::BitOr => Expression::BitOr(BitOr { left, right }),
        BinaryOp::LogicalAnd => Expression::LogicalAnd(LogicalAnd { left, right }),
        BinaryOp::LogicalOr => Expression::LogicalOr(LogicalOr { left, right }),
    }
}

pub fn binary_parts(e: &Expression) -> (r: Option<(BinaryOp, ExpressionId, ExpressionId)>)
    ensures
        r == binary_view(*e),
{
    match e {
        Expression::Multiply(b) => Some((BinaryOp::Multiply, b.left, b.right)),
        Expression::Divide(b) => Some((BinaryOp::Divide, b.left, b.right)),
        Expression::Modulo(b) => Some((BinaryOp::Modulo, b.left, b.right)),
        Expression::Add(b) => Some((BinaryOp::Add, b.left, b.right)),
        Expression::Subtract(b) => Some((BinaryOp::Subtract, b.left, b.right)),
        Expression::BitShiftL(b) => Some((BinaryOp::BitShiftL, b.left, b.right)),
        Expression::BitShiftR(b) => Some((BinaryOp::BitShiftR, b.left, b.right)),
        Expression::ArithShiftR(b) => Some((BinaryOp::ArithShiftR, b.left, b.right)),
        Expression::LessThan(b) => Some((BinaryOp::LessThan, b.left, b.right)),
        Expression::LessThanEqual(b) => Some((BinaryOp::LessThanEqual, b.left, b.right)),
        Expression::GreaterThan(b) => Some((BinaryOp::GreaterThan, b.left, b.right)),
        Expression::GreaterThanEqual(b) => Some((BinaryOp::GreaterThanEqual, b.left, b.right)),
        Expression::Equals(b) => Some((BinaryOp::Equals, b.left, b.right)),
        Expression::NotEquals(b) => Some((BinaryOp::NotEquals, b.left, b.right)),
        Expression::BitAnd(b) => Some((BinaryOp::BitAnd, b.left, b.right)),
        Expression::BitXor(b) => Some((BinaryOp::BitXor, b.left, b.right)),
        Expression::BitOr(b) => Some((BinaryOp::BitOr, b.left, b.right)),
        Expression::LogicalAnd(b) => Some((BinaryOp::LogicalAnd, b.left, b.right)),
        Expression::LogicalOr(b) => Some((BinaryOp::LogicalOr, b.left, b.right)),
        _ => None,
    }
}

fn make_binary(op: &BinaryOp, left: ExpressionId, right: ExpressionId) -> (r: Expression)
    ensures
        r == binary_node(*op, left, right),
        binary_view(r) == Some((*op, left, right)),
{
    match op {
        BinaryOp::Multiply => Expression::Multiply(Multiply { left, right }),
        BinaryOp::Divide => Expression::Divide(Divide { left, right }),
        BinaryOp::Modulo => Expression::Modulo(Modulo { left, right }),
        BinaryOp::Add => Expression::Add(Add { left, right }),
        BinaryOp::Subtract => Expression::Subtract(Subtract { left, right }),
        BinaryOp::BitShiftL => Expression::BitShiftL(BitShiftL { left, right }),
        BinaryOp::BitShiftR => Expression::BitShiftR(BitShiftR { left, right }),
        BinaryOp::ArithShiftR => Expression::ArithShiftR(ArithShiftR { left, right }),
        BinaryOp::LessThan => Expression::LessThan(LessThan { left, right }),
        BinaryOp::LessThanEqual => Expression::LessThanEqual(LessThanEqual { left, right }),
        BinaryOp::GreaterThan => Expression::GreaterThan(GreaterThan { left, right }),
        BinaryOp::GreaterThanEqual => Expression::GreaterThanEqual(GreaterThanEqual { left, right }),
        BinaryOp::Equals => Expression::Equals(Equals { left, right }),
        BinaryOp::NotEquals => Expression::NotEquals(NotEquals { left, right }),
        BinaryOp::BitAnd => Expression::BitAnd(BitAnd { left, right }),
        BinaryOp::BitXor => Expression::BitXor(BitXor { left, right }),
        BinaryOp::BitOr => Expression::BitOr(BitOr { left, right }),
        BinaryOp::LogicalAnd => Expression::LogicalAnd(LogicalAnd { left, right }),
        BinaryOp::LogicalOr => Expression::LogicalOr(LogicalOr { left, right }),
    }
}
/// Every child handle of `e` was allocated before position `n`.
pub open spec fn children_below(e: Expression, n: nat) -> bool {
    match e {
        Expression::Identifier(_) => true,
        Expression::Literal(_) => true,
        Expression::Call(c) => forall|i: int|
            0 <= i < c.args@.len() ==> (#[trigger] c.args@[i]).index_spec() < n,
        Expression::Invert(u) => u.inner.index_spec() < n,
        _ => match binary_view(e) {
            Some((_, l, r)) => l.index_spec() < n && r.index_spec() < n,
            None => true,
        },
    }
}

/// A binary node at `i` spans exactly the union of its operands' spans.
pub open spec fn span_composed(nodes: Seq<Expression>, spans: Seq<Span>, i: int) -> bool {
    match binary_view(nodes[i]) {
        Some((_, l, r)) => spans[i] == span_union(
            spans[l.index_spec() as int],
            spans[r.index_spec() as int],
        ),
        None => true,
    }
}

/// The nodes of one store, in allocation order.
#[verifier::external_body]
pub struct ExprArena {
    map: PrimaryMap<ExpressionId, Expression>,
}

/// The nodes an arena holds, in allocation order.
pub uninterp spec fn arena_nodes(a: ExprArena) -> Seq<Expression>;

/// Relies on `PrimaryMap::new`: a new map holds no value.
#[verifier::external_body]
fn arena_new() -> (r: ExprArena)
    ensures
        arena_nodes(r) == Seq::<Expression>::empty(),
{
    ExprArena { map: PrimaryMap::new() }
}

/// Relies on `PrimaryMap::push`: the value is appended, and the key returned is
/// `ExpressionId::new` of the previous length, which keeps that length.
#[verifier::external_body]
fn arena_push(a: &mut ExprArena, e: Expression) -> (r: ExpressionId)
    requires
        arena_nodes(*old(a)).len() < u32::MAX,
    ensures
        arena_nodes(*final(a)) == arena_nodes(*old(a)).push(e),
        r.index_spec() == arena_nodes(*old(a)).len(),
{
    a.map.push(e)
}

/// Relies on `PrimaryMap`'s indexing: the value stored at the key's index
/// (`ExpressionId::index`, above); it panics only on a key past the end.
#[verifier::external_body]
fn arena_get(a: &ExprArena, id: ExpressionId) -> (r: &Expression)
    requires
        id.index_spec() < arena_nodes(*a).len(),
    ensures
        *r == arena_nodes(*a)[id.index_spec() as int],
{
    &a.map[id]
}

/// The expression store: owns every node of one compilation unit and the span
/// of each.
pub struct ExpressionData {
    expressions: ExprArena,
    expression_spans: Vec<Span>,
}

impl ExpressionData {
    /// The nodes, in allocation order; a handle's index is its position.
    pub closed spec fn nodes(&self) -> Seq<Expression> {
        arena_nodes(self.expressions)
    }

    /// The span of each node, by position.
    pub closed spec fn spans(&self) -> Seq<Span> {
        self.expression_spans@
    }

    pub open spec fn valid_id(&self, id: ExpressionId) -> bool {
        id.index_spec() < self.nodes().len()
    }

    /// One span per node, children allocated before their parent, and each
    /// binary node spanning the union of its operands.
    pub open spec fn wf(&self) -> bool {
        &&& self.spans().len() == self.nodes().len()
        &&& self.nodes().len() <= u32::MAX
        &&& forall|i: int|
            0 <= i < self.nodes().len() ==> children_below(#[trigger] self.nodes()[i], i as nat)
        &&& forall|i: int|
            0 <= i < self.nodes().len() ==> #[trigger] span_composed(
                self.nodes(),
                self.spans(),
                i,
            )
    }

    pub fn new() -> (r: ExpressionData)
        ensures
            r.wf(),
            r.nodes().len() == 0,
    {
        ExpressionData { expressions: arena_new(), expression_spans: Vec::new() }
    }

    /// Every handle of the store, in allocation order.
    pub fn expressions(&self) -> (r: Vec<ExpressionId>)
        requires
            self.wf(),
        ensures
            r@.len() == self.nodes().len(),
            forall|i: int| 0 <= i < r@.len() ==> (#[trigger] r@[i]).index_spec() == i,
    {
        let n = self.expression_spans.len();
        let mut ids: Vec<ExpressionId> = Vec::new();
        let mut i: usize = 0;
        while i < n
            invariant
                n == self.nodes().len(),
                n <= u32::MAX,
                i <= n,
                ids@.len() == i,
                forall|j: int| 0 <= j < i ==> (#[trigger] ids@[j]).index_spec() == j,
            decreases n - i,
        {
            ids.push(ExpressionId(i as u32));
            i = i + 1;
        }
        ids
    }

    /// The number of nodes allocated so far.
    pub fn len(&self) -> (r: usize)
        requires
            self.wf(),
        ensures
            r == self.nodes().len(),
    {
        self.expression_spans.len()
    }

    /// Appends a node with its span and returns the node's handle.
    pub fn allocate(&mut self, expression: Expression, span: Span) -> (r: ExpressionId)
        requires
            old(self).wf(),
            old(self).nodes().len() < u32::MAX,
            children_below(expression, old(self).nodes().len()),
            binary_view(expression) matches Some((_, l, rr)) ==> span == span_union(
                old(self).spans()[l.index_spec() as int],
                old(self).spans()[rr.index_spec() as int],
            ),
        ensures
            final(self).wf(),
            final(self).nodes() == old(self).nodes().push(expression),
            final(self).spans() == old(self).spans().push(span),
            r.index_spec() == old(self).nodes().len(),
    {
        let id = arena_push(&mut self.expressions, expression);
        self.expression_spans.push(span);
        proof {
            let n = self.nodes();
            let s = self.spans();
            assert forall|i: int| 0 <= i < n.len() implies children_below(
                #[trigger] n[i],
                i as nat,
            ) by {
                if i < n.len() - 1 {
                    assert(n[i] == old(self).nodes()[i]);
                }
            }
            assert forall|i: int| 0 <= i < n.len() implies #[trigger] span_composed(n, s, i) by {
                if i < n.len() - 1 {
                    assert(n[i] == old(self).nodes()[i]);
                    assert(span_composed(old(self).nodes(), old(self).spans(), i));
                }
            }
        }
        id
    }

    /// The node behind `id`.
    pub fn get_exp(&self, id: ExpressionId) -> (r: &Expression)
        requires
            self.valid_id(id),
        ensures
            *r == self.nodes()[id.index_spec() as int],
    {
        arena_get(&self.expressions, id)
    }

    /// The span recorded for `id`.
    pub fn get_span(&self, id: ExpressionId) -> (r: Span)
        requires
            self.wf(),
            self.valid_id(id),
        ensures
            r == self.spans()[id.index_spec() as int],
    {
        self.expression_spans[id.0 as usize]
    }

    pub fn alloc_ident(&mut self, ident: NameId, span: Span) -> (r: ExpressionId)
        requires
            old(self).wf(),
            old(self).nodes().len() < u32::MAX,
        ensures
            final(self).wf(),
            final(self).nodes() == old(self).nodes().push(
                Expression::Identifier(Identifier { ident }),
            ),
            final(self).spans() == old(self).spans().push(span),
            r.index_spec() == old(self).nodes().len(),
    {
        let expr = Expression::Identifier(Identifier { ident });
        self.allocate(expr, span)
    }

    pub fn alloc_literal(&mut self, literal: Literal, span: Span) -> (r: ExpressionId)
        requires
            old(self).wf(),
            old(self).nodes().len() < u32::MAX,
        ensures
            final(self).wf(),
            final(self).nodes() == old(self).nodes().push(Expression::Literal(literal)),
            final(self).spans() == old(self).spans().push(span),
            r.index_spec() == old(self).nodes().len(),
    {
        self.allocate(Expression::Literal(literal), span)
    }

    /// Allocates a call of `ident` on `args`; `span` runs from the opening to
    /// the closing parenthesis.
    pub fn alloc_call(&mut self, ident: NameId, args: Vec<ExpressionId>, span: Span) -> (r:
        ExpressionId)
        requires
            old(self).wf(),
            old(self).nodes().len() < u32::MAX,
            forall|i: int| 0 <= i < args@.len() ==> old(self).valid_id(#[trigger] args@[i]),
        ensures
            final(self).wf(),
            final(self).nodes() == old(self).nodes().push(
                Expression::Call(Call { ident, args }),
            ),
            final(self).spans() == old(self).spans().push(span),
            r.index_spec() == old(self).nodes().len(),
    {
        let expr = Expression::Call(Call { ident, args });
        self.allocate(expr, span)
    }

    /// Allocates the unary operation that `op` stands for. Inversion is the
    /// only unary operation: any other token is an unsupported construct, and
    /// nothing is allocated.
    pub fn alloc_unary_op(&mut self, op: &Token, inner: ExpressionId, span: Span) -> (r: Result<
        ExpressionId,
        Construct,
    >)
        requires
            old(self).wf(),
            old(self).nodes().len() < u32::MAX,
            old(self).valid_id(inner),
        ensures
            final(self).wf(),
            r is Ok <==> op is Invert,
            r is Ok ==> {
                &&& final(self).nodes() == old(self).nodes().push(
                    Expression::Invert(Invert { inner }),
                )
                &&& final(self).spans() == old(self).spans().push(span)
                &&& r->Ok_0.index_spec() == old(self).nodes().len()
            },
            r is Err ==> r == Err::<ExpressionId, Construct>(Construct::UnaryOperator),
            r is Err ==> *final(self) == *old(self),
    {
        match op {
            Token::Invert => Ok(self.allocate(Expression::Invert(Invert { inner }), span)),
            _ => Err(Construct::UnaryOperator),
        }
    }

    /// Allocates the binary node `left op right`; its span is the union of
    /// the operands' spans.
    pub fn alloc_bin_op(&mut self, op: &BinaryOp, left: ExpressionId, right: ExpressionId) -> (r:
        ExpressionId)
        requires
            old(self).wf(),
            old(self).nodes().len() < u32::MAX,
            old(self).valid_id(left),
            old(self).valid_id(right),
        ensures
            final(self).wf(),
            final(self).nodes() == old(self).nodes().push(binary_node(*op, left, right)),
            final(self).spans() == old(self).spans().push(
                span_union(
                    old(self).spans()[left.index_spec() as int],
                    old(self).spans()[right.index_spec() as int],
                ),
            ),
            r.index_spec() == old(self).nodes().len(),
    {
        let span = merge(&self.get_span(left), &self.get_span(right));
        let expr = make_binary(op, left, right);
        self.allocate(expr, span)
    }
}

impl Default for ExpressionData {
    fn default() -> (r: ExpressionData)
        ensures
            r.wf(),
            r.nodes().len() == 0,
    {
        ExpressionData::new()
    }
}



/// The shape of an expression with its spans, free of any store.
pub enum Tree {
    Ident(NameId, Span),
    Lit(Literal, Span),
    Call(NameId, Seq<Tree>, Span),
    Invert(Box<Tree>, Span),
    Bin(BinaryOp, Box<Tree>, Box<Tree>, Span),
}

pub open spec fn tree_span(t: Tree) -> Span {
    match t {
        Tree::Ident(_, s) => s,
        Tree::Lit(_, s) => s,
        Tree::Call(_, _, s) => s,
        Tree::Invert(_, s) => s,
        Tree::Bin(_, _, _, s) => s,
    }
}

/// The tree rooted at position `k` of a store.
pub open spec fn tree_of(d: ExpressionData, k: nat) -> Tree
    decreases k, 1nat,
{
    if k < d.nodes().len() {
        let s = d.spans()[k as int];
        match d.nodes()[k as int] {
            Expression::Identifier(i) => Tree::Ident(i.ident, s),
            Expression::Literal(l) => Tree::Lit(l, s),
            Expression::Call(c) => Tree::Call(c.ident, trees_of(d, c.args@, k), s),
            Expression::Invert(u) => if u.inner.index_spec() < k {
                Tree::Invert(Box::new(tree_of(d, u.inner.index_spec())), s)
            } else {
                Tree::Lit(Literal::Integer(0), s)
            },
            e => match binary_view(e) {
                Some((op, l, r)) => if l.index_spec() < k && r.index_spec() < k {
                    Tree::Bin(
                        op,
                        Box::new(tree_of(d, l.index_spec())),
                        Box::new(tree_of(d, r.index_spec())),
                        s,
                    )
                } else {
                    Tree::Lit(Literal::Integer(0), s)
                },
                None => Tree::Lit(Literal::Integer(0), s),
            },
        }
    } else {
        Tree::Lit(Literal::Integer(0), Span { start: 0, end: 0 })
    }
}

/// The trees rooted at `args`, in order, each of which lies below `k`.
pub open spec fn trees_of(d: ExpressionData, args: Seq<ExpressionId>, k: nat) -> Seq<Tree>
    decreases k, 0nat, args.len(),
{
    if args.len() == 0 {
        Seq::empty()
    } else {
        let last = args.last().index_spec();
        trees_of(d, args.drop_last(), k).push(
            if last < k {
                tree_of(d, last)
            } else {
                Tree::Lit(Literal::Integer(0), Span { start: 0, end: 0 })
            },
        )
    }
}

/// Whether the tree rooted at position `a` of store `l` and the tree rooted
/// at position `b` of store `r` are the same expression: equal spans, equal
/// kinds, equal contents, and equal subtrees in order.
pub open spec fn ids_equal(l: ExpressionData, r: ExpressionData, a: nat, b: nat) -> bool
    decreases a + b, 1nat,
{
    if a < l.nodes().len() && b < r.nodes().len() && l.spans()[a as int] == r.spans()[b as int] {
        nodes_equal(l, r, l.nodes()[a as int], r.nodes()[b as int], a, b)
    } else {
        false
    }
}

/// Whether node `x` of store `l` and node `y` of store `r` are the same
/// expression, their children compared as subtrees. The children of `x` must
/// lie below `ba`, those of `y` below `bb`.
pub open spec fn nodes_equal(
    l: ExpressionData,
    r: ExpressionData,
    x: Expression,
    y: Expression,
    ba: nat,
    bb: nat,
) -> bool
    decreases ba + bb, 0nat,
{
    match (x, y) {
        (Expression::Identifier(p), Expression::Identifier(q)) => p.ident == q.ident,
        (Expression::Literal(p), Expression::Literal(q)) => p == q,
        (Expression::Call(p), Expression::Call(q)) => {
            &&& p.ident == q.ident
            &&& p.args@.len() == q.args@.len()
            &&& forall|i: int|
                0 <= i < p.args@.len() ==> {
                    &&& (#[trigger] p.args@[i]).index_spec() < ba
                    &&& q.args@[i].index_spec() < bb
                    &&& ids_equal(l, r, p.args@[i].index_spec(), q.args@[i].index_spec())
                }
        },
        (Expression::Invert(p), Expression::Invert(q)) => {
            &&& p.inner.index_spec() < ba
            &&& q.inner.index_spec() < bb
            &&& ids_equal(l, r, p.inner.index_spec(), q.inner.index_spec())
        },
        _ => match (binary_view(x), binary_view(y)) {
            (Some((o1, l1, r1)), Some((o2, l2, r2))) => {
                &&& o1 == o2
                &&& l1.index_spec() < ba
                &&& l2.index_spec() < bb
                &&& ids_equal(l, r, l1.index_spec(), l2.index_spec())
                &&& r1.index_spec() < ba
                &&& r2.index_spec() < bb
                &&& ids_equal(l, r, r1.index_spec(), r2.index_spec())
            },
            _ => false,
        },
    }
}

/// Equality of two values relative to a context that resolves the handles
/// they hold.
pub trait ContextEq<Context> {
    /// Whether every handle in `self` resolves through `context`.
    spec fn resolves_in(&self, context: &Context) -> bool;

    /// The relation that `context_eq` decides.
    spec fn equal_in(&self, other: &Self, context: &Context) -> bool;

    fn context_eq(&self, other: &Self, context: &Context) -> (r: bool)
        requires
            self.resolves_in(context),
            other.resolves_in(context),
        ensures
            r == self.equal_in(other, context),
    ;
}

/// Compares the tree rooted at `a` in store `l` with the tree rooted at `b`
/// in store `r`; the two stores may be different.
pub fn trees_equal(l: &ExpressionData, a: ExpressionId, r: &ExpressionData, b: ExpressionId) -> (res:
    bool)
    requires
        l.wf(),
        r.wf(),
        l.valid_id(a),
        r.valid_id(b),
    ensures
        res == ids_equal(*l, *r, a.index_spec(), b.index_spec()),
    decreases a.index_spec() + b.index_spec(), 3nat,
{
    if l.get_span(a) != r.get_span(b) {
        return false;
    }
    nodes_eq(l, r, l.get_exp(a), r.get_exp(b), Ghost(a.index_spec()), Ghost(b.index_spec()))
}

fn nodes_eq(
    l: &ExpressionData,
    r: &ExpressionData,
    x: &Expression,
    y: &Expression,
    ba: Ghost<nat>,
    bb: Ghost<nat>,
) -> (res: bool)
    requires
        l.wf(),
        r.wf(),
        ba@ <= l.nodes().len(),
        bb@ <= r.nodes().len(),
        children_below(*x, ba@),
        children_below(*y, bb@),
    ensures
        res == nodes_equal(*l, *r, *x, *y, ba@, bb@),
    decreases ba@ + bb@, 2nat,
{
    match (x, y) {
        (Expression::Identifier(p), Expression::Identifier(q)) => p.ident == q.ident,
        (Expression::Literal(p), Expression::Literal(q)) => *p == *q,
        (Expression::Call(p), Expression::Call(q)) => calls_eq(l, r, p, q, ba, bb),
        (Expression::Invert(p), Expression::Invert(q)) => trees_equal(l, p.inner, r, q.inner),
        _ => match (binary_parts(x), binary_parts(y)) {
            (Some((o1, l1, r1)), Some((o2, l2, r2))) => {
                o1 == o2 && trees_equal(l, l1, r, l2) && trees_equal(l, r1, r, r2)
            },
            _ => false,
        },
    }
}

/// Compares two calls: the same callee, as many arguments, and equal
/// arguments position by position.
fn calls_eq(
    l: &ExpressionData,
    r: &ExpressionData,
    p: &Call,
    q: &Call,
    ba: Ghost<nat>,
    bb: Ghost<nat>,
) -> (res: bool)
    requires
        l.wf(),
        r.wf(),
        ba@ <= l.nodes().len(),
        bb@ <= r.nodes().len(),
        forall|j: int| 0 <= j < p.args@.len() ==> (#[trigger] p.args@[j]).index_spec() < ba@,
        forall|j: int| 0 <= j < q.args@.len() ==> (#[trigger] q.args@[j]).index_spec() < bb@,
    ensures
        res == nodes_equal(*l, *r, Expression::Call(*p), Expression::Call(*q), ba@, bb@),
    decreases ba@ + bb@, 1nat,
{
    if p.ident != q.ident || p.args.len() != q.args.len() {
        return false;
    }
    let mut i: usize = 0;
    while i < p.args.len()
        invariant
            l.wf(),
            r.wf(),
            ba@ <= l.nodes().len(),
            bb@ <= r.nodes().len(),
            forall|j: int| 0 <= j < p.args@.len() ==> (#[trigger] p.args@[j]).index_spec() < ba@,
            forall|j: int| 0 <= j < q.args@.len() ==> (#[trigger] q.args@[j]).index_spec() < bb@,
            p.args@.len() == q.args@.len(),
            i <= p.args@.len(),
            forall|j: int|
                0 <= j < i ==> ids_equal(
                    *l,
                    *r,
                    (#[trigger] p.args@[j]).index_spec(),
                    q.args@[j].index_spec(),
                ),
        decreases p.args@.len() - i,
    {
        if !trees_equal(l, p.args[i], r, q.args[i]) {
            return false;
        }
        i = i + 1;
    }
    true
}

impl ExpressionData {
    /// Compares the trees rooted at `a` and `b` of this store.
    pub fn eq(&self, a: ExpressionId, b: ExpressionId) -> (r: bool)
        requires
            self.wf(),
            self.valid_id(a),
            self.valid_id(b),
        ensures
            r == ids_equal(*self, *self, a.index_spec(), b.index_spec()),
    {
        trees_equal(self, a, self, b)
    }
}

impl ContextEq<ExpressionData> for ExpressionId {
    open spec fn resolves_in(&self, context: &ExpressionData) -> bool {
        context.wf() && context.valid_id(*self)
    }

    open spec fn equal_in(&self, other: &Self, context: &ExpressionData) -> bool {
        ids_equal(*context, *context, self.index_spec(), other.index_spec())
    }

    fn context_eq(&self, other: &Self, context: &ExpressionData) -> (r: bool) {
        trees_equal(context, *self, context, *other)
    }
}

impl ContextEq<ExpressionData> for Expression {
    open spec fn resolves_in(&self, context: &ExpressionData) -> bool {
        context.wf() && children_below(*self, context.nodes().len())
    }

    open spec fn equal_in(&self, other: &Self, context: &ExpressionData) -> bool {
        let n = context.nodes().len();
        nodes_equal(*context, *context, *self, *other, n, n)
    }

    fn context_eq(&self, other: &Self, context: &ExpressionData) -> (r: bool) {
        let n = Ghost(context.nodes().len());
        nodes_eq(context, context, self, other, n, n)
    }
}

impl ContextEq<ExpressionData> for Identifier {
    open spec fn resolves_in(&self, context: &ExpressionData) -> bool {
        true
    }

    open spec fn equal_in(&self, other: &Self, context: &ExpressionData) -> bool {
        self.ident == other.ident
    }

    fn context_eq(&self, other: &Self, context: &ExpressionData) -> (r: bool) {
        self.ident == other.ident
    }
}

impl ContextEq<ExpressionData> for Literal {
    open spec fn resolves_in(&self, context: &ExpressionData) -> bool {
        true
    }

    open spec fn equal_in(&self, other: &Self, context: &ExpressionData) -> bool {
        *self == *other
    }

    fn context_eq(&self, other: &Self, context: &ExpressionData) -> (r: bool) {
        *self == *other
    }
}

impl ContextEq<ExpressionData> for Call {
    open spec fn resolves_in(&self, context: &ExpressionData) -> bool {
        context.wf() && children_below(Expression::Call(*self), context.nodes().len())
    }

    open spec fn equal_in(&self, other: &Self, context: &ExpressionData) -> bool {
        let n = context.nodes().len();
        nodes_equal(*context, *context, Expression::Call(*self), Expression::Call(*other), n, n)
    }

    fn context_eq(&self, other: &Self, context: &ExpressionData) -> (r: bool) {
        let n = Ghost(context.nodes().len());
        calls_eq(context, context, self, other, n, n)
    }
}

impl ContextEq<ExpressionData> for Invert {
    open spec fn resolves_in(&self, context: &ExpressionData) -> bool {
        context.wf() && context.valid_id(self.inner)
    }

    open spec fn equal_in(&self, other: &Self, context: &ExpressionData) -> bool {
        ids_equal(*context, *context, self.inner.index_spec(), other.inner.index_spec())
    }

    fn context_eq(&self, other: &Self, context: &ExpressionData) -> (r: bool) {
        trees_equal(context, self.inner, context, other.inner)
    }
}

/// Every tree of a well-formed store is equal to itself.
pub proof fn lemma_context_eq_reflexive(data: &ExpressionData, a: ExpressionId)
    requires
        data.wf(),
        data.valid_id(a),
    ensures
        a.equal_in(&a, data),
    decreases a.index_spec(),
{
    let k = a.index_spec() as int;
    let e = data.nodes()[k];
    assert(children_below(e, k as nat));
    match e {
        Expression::Call(c) => {
            assert forall|i: int| 0 <= i < c.args@.len() implies ids_equal(
                *data,
                *data,
                (#[trigger] c.args@[i]).index_spec(),
                c.args@[i].index_spec(),
            ) by {
                lemma_context_eq_reflexive(data, c.args@[i]);
            }
        },
        Expression::Invert(u) => {
            lemma_context_eq_reflexive(data, u.inner);
        },
        _ => {
            if let Some((_, l, r)) = binary_view(e) {
                lemma_context_eq_reflexive(data, l);
                lemma_context_eq_reflexive(data, r);
            }
        },
    }
}

/// Trees whose roots have different spans are never equal, whatever their
/// shape.
pub proof fn lemma_context_eq_needs_same_span(
    data: &ExpressionData,
    a: ExpressionId,
    b: ExpressionId,
)
    requires
        data.wf(),
        data.valid_id(a),
        data.valid_id(b),
        data.spans()[a.index_spec() as int] != data.spans()[b.index_spec() as int],
    ensures
        !a.equal_in(&b, data),
{
}

/// In a well-formed store each binary node spans exactly the union of its
/// operands' spans.
pub proof fn lemma_binary_span_composed(data: &ExpressionData, id: ExpressionId)
    requires
        data.wf(),
        data.valid_id(id),
        binary_view(data.nodes()[id.index_spec() as int]) is Some,
    ensures
        ({
            let (_, l, r) = binary_view(data.nodes()[id.index_spec() as int])->0;
            &&& l.index_spec() < id.index_spec()
            &&& r.index_spec() < id.index_spec()
            &&& data.spans()[id.index_spec() as int] == span_union(
                data.spans()[l.index_spec() as int],
                data.spans()[r.index_spec() as int],
            )
        }),
{
    let k = id.index_spec() as int;
    assert(children_below(data.nodes()[k], k as nat));
    assert(span_composed(data.nodes(), data.spans(), k));
}

} // verus!
