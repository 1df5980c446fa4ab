use vstd::prelude::*;

verus! {

/// The operators that a binary expression can carry.
#[derive(Debug, PartialEq, Clone, Copy)]
pub enum OperatorKind {
    Plus,
    Minus,
    Multiply,
    Divide,
    EqualsEquals,
    Equals,
}

#[derive(Debug, PartialEq, Clone, Copy)]
pub struct Operator {
    pub kind: OperatorKind,
}

impl Operator {
    /// True only for assignment (`=`).
    pub fn is_equals(&self) -> (r: bool)
        ensures
            r == (self.kind is Equals),
    {
        match self.kind {
            OperatorKind::Equals => true,
            _ => false,
        }
    }
}

/// An expression tree as the parser hands it over. Number literals hold the
/// bits of their IEEE-754 double; string literals hold their text and the
/// bits of its numeric reading.
#[derive(Debug, PartialEq)]
#[allow(inconsistent_fields)]
pub enum Expression {
    LetVariableDeclaration { name: String, initializer: Box<Expression> },
    NumberLiteral { value: u64 },
    StringLiteral { value: String, number: u64 },
    Parenthesized { expression: Box<Expression> },
    Identifier { name: String },
    BinaryOp { left: Box<Expression>, op: Operator, right: Box<Expression> },
}

/// The root of a parsed source text: its statements in order.
#[derive(Debug, PartialEq)]
pub struct Program {
    pub expressions: Vec<Expression>,
}

impl Expression {
    pub fn duplicate(&self) -> (r: Self)
        ensures
            r == *self,
        decreases self,
    {
        match self {
            Expression::LetVariableDeclaration { name, initializer } => {
                Expression::LetVariableDeclaration {
                    name: name.clone(),
                    initializer: Box::new((**initializer).duplicate()),
                }
            },
            Expression::NumberLiteral { value } => Expression::NumberLiteral { value: *value },
            Expression::StringLiteral { value, number } => Expression::StringLiteral {
                value: value.clone(),
                number: *number,
            },
            Expression::Parenthesized { expression } => Expression::Parenthesized {
                expression: Box::new((**expression).duplicate()),
            },
            Expression::Identifier { name } => Expression::Identifier { name: name.clone() },
            Expression::BinaryOp { left, op, right } => Expression::BinaryOp {
                left: Box::new((**left).duplicate()),
                op: *op,
                right: Box::new((**right).duplicate()),
            },
        }
    }
}

/// Binding strength: `* /` bind tighter than `+ -`, which bind tighter than
/// `==`; assignment binds loosest.
pub open spec fn precedence(k: OperatorKind) -> int {
    match k {
        OperatorKind::Multiply | OperatorKind::Divide => 3,
        OperatorKind::Plus | OperatorKind::Minus => 2,
        OperatorKind::EqualsEquals => 1,
        OperatorKind::Equals => 0,
    }
}

fn precedence_of(k: &OperatorKind) -> (r: u8)
    ensures
        r as int == precedence(*k),
{
    match k {
        OperatorKind::Multiply | OperatorKind::Divide => 3,
        OperatorKind::Plus | OperatorKind::Minus => 2,
        OperatorKind::EqualsEquals => 1,
        OperatorKind::Equals => 0,
    }
}

pub open spec fn is_chain_link(e: Expression) -> bool {
    e matches Expression::BinaryOp { op, .. } && !(op.kind is Equals)
}

/// The operands of a chain of non-assignment binary operators, left to
/// right, each reordered itself.
pub open spec fn chain_operands(e: Expression) -> Seq<Expression>
    decreases e, 1nat,
{
    match e {
        Expression::BinaryOp { left, op, right } => if op.kind is Equals {
            seq![reordered(e)]
        } else {
            chain_operands(*left) + chain_operands(*right)
        },
        _ => seq![reordered(e)],
    }
}

/// The operators of that chain, left to right.
pub open spec fn chain_operators(e: Expression) -> Seq<OperatorKind>
    decreases e,
{
    match e {
        Expression::BinaryOp { left, op, right } => if op.kind is Equals {
            seq![]
        } else {
            chain_operators(*left) + seq![op.kind] + chain_operators(*right)
        },
        _ => seq![],
    }
}

/// The rightmost operator of least precedence among `ops[lo..hi]`.
pub open spec fn split_point(ops: Seq<OperatorKind>, lo: int, hi: int) -> int
    decreases hi - lo,
{
    if hi - lo <= 1 {
        lo
    } else {
        let k = split_point(ops, lo + 1, hi);
        if precedence(ops[lo]) < precedence(ops[k]) {
            lo
        } else {
            k
        }
    }
}

/// The tree over `xs[lo..=hi]` joined by `ops[lo..hi]` in which tighter
/// operators group first and operators of equal strength group from the
/// left.
pub open spec fn grouped(xs: Seq<Expression>, ops: Seq<OperatorKind>, lo: int, hi: int) -> Expression
    decreases hi - lo,
{
    if hi <= lo {
        xs[lo]
    } else {
        let k = split_point(ops, lo, hi);
        if lo <= k < hi {
            Expression::BinaryOp {
                left: Box::new(grouped(xs, ops, lo, k)),
                op: Operator { kind: ops[k] },
                right: Box::new(grouped(xs, ops, k + 1, hi)),
            }
        } else {
            xs[lo]
        }
    }
}

/// The tree with every chain of arithmetic and comparison operators
/// regrouped by precedence; parentheses, declarations and assignments keep
/// their shape and have their parts reordered.
pub open spec fn reordered(e: Expression) -> Expression
    decreases e, 0nat,
{
    match e {
        Expression::LetVariableDeclaration { name, initializer } => {
            Expression::LetVariableDeclaration { name, initializer: Box::new(reordered(*initializer)) }
        },
        Expression::Parenthesized { expression } => {
            Expression::Parenthesized { expression: Box::new(reordered(*expression)) }
        },
        Expression::BinaryOp { left, op, right } => if op.kind is Equals {
            Expression::BinaryOp {
                left: Box::new(reordered(*left)),
                op,
                right: Box::new(reordered(*right)),
            }
        } else {
            let xs = chain_operands(*left) + chain_operands(*right);
            let ops = chain_operators(*left) + seq![op.kind] + chain_operators(*right);
            grouped(xs, ops, 0, ops.len() as int)
        },
        _ => e,
    }
}

pub proof fn lemma_chain_lengths(e: Expression)
    ensures
        chain_operands(e).len() == chain_operators(e).len() + 1,
    decreases e,
{
    if let Expression::BinaryOp { left, op, right } = e {
        if !(op.kind is Equals) {
            lemma_chain_lengths(*left);
            lemma_chain_lengths(*right);
        }
    }
}

/// The operands of `grouped(xs, ops, lo, hi)` read back as a chain are
/// `xs[lo..=hi]`, and its operators `ops[lo..hi]`, when every operand is a
/// fixed point of reordering that is no chain link itself.
proof fn lemma_grouped_chain(xs: Seq<Expression>, ops: Seq<OperatorKind>, lo: int, hi: int)
    requires
        0 <= lo <= hi < xs.len(),
        hi <= ops.len(),
        forall|i: int| 0 <= i < xs.len() ==> !is_chain_link(#[trigger] xs[i]),
        forall|i: int| 0 <= i < xs.len() ==> reordered(#[trigger] xs[i]) == xs[i],
        forall|i: int| 0 <= i < ops.len() ==> !(#[trigger] ops[i] is Equals),
    ensures
        chain_operands(grouped(xs, ops, lo, hi)) == xs.subrange(lo, hi + 1),
        chain_operators(grouped(xs, ops, lo, hi)) == ops.subrange(lo, hi),
    decreases hi - lo,
{
    if hi <= lo {
        assert(xs.subrange(lo, hi + 1) =~= seq![xs[lo]]);
        assert(ops.subrange(lo, hi) =~= Seq::<OperatorKind>::empty());
        assert(chain_operands(xs[lo]) == seq![reordered(xs[lo])]);
    } else {
        lemma_split_point_bounds(ops, lo, hi);
        let k = split_point(ops, lo, hi);
        lemma_grouped_chain(xs, ops, lo, k);
        lemma_grouped_chain(xs, ops, k + 1, hi);
        assert(xs.subrange(lo, k + 1) + xs.subrange(k + 1, hi + 1) =~= xs.subrange(lo, hi + 1));
        assert(ops.subrange(lo, k) + seq![ops[k]] + ops.subrange(k + 1, hi) =~= ops.subrange(
            lo,
            hi,
        ));
    }
}

proof fn lemma_split_point_bounds(ops: Seq<OperatorKind>, lo: int, hi: int)
    requires
        lo < hi,
    ensures
        lo <= split_point(ops, lo, hi) < hi,
    decreases hi - lo,
{
    if hi - lo > 1 {
        lemma_split_point_bounds(ops, lo + 1, hi);
    }
}

/// Every operand of a chain is a fixed point of reordering and no chain
/// link, and no operator of a chain is an assignment.
proof fn lemma_chain_fixed(e: Expression)
    ensures
        forall|i: int|
            0 <= i < chain_operands(e).len() ==> !is_chain_link(#[trigger] chain_operands(e)[i])
                && reordered(chain_operands(e)[i]) == chain_operands(e)[i],
        forall|i: int|
            0 <= i < chain_operators(e).len() ==> !(#[trigger] chain_operators(e)[i] is Equals),
    decreases e, 1nat,
{
    match e {
        Expression::BinaryOp { left, op, right } => {
            if op.kind is Equals {
                lemma_reorder_idempotent(e);
            } else {
                lemma_chain_fixed(*left);
                lemma_chain_fixed(*right);
                let a = chain_operands(*left);
                let b = chain_operands(*right);
                assert forall|i: int| 0 <= i < (a + b).len() implies !is_chain_link(
                    #[trigger] (a + b)[i],
                ) && reordered((a + b)[i]) == (a + b)[i] by {
                    if i >= a.len() {
                        assert((a + b)[i] == b[i - a.len()]);
                    }
                }
                let p = chain_operators(*left);
                let q = chain_operators(*right);
                assert forall|i: int| 0 <= i < (p + seq![op.kind] + q).len() implies !(
                #[trigger] (p + seq![op.kind] + q)[i] is Equals) by {
                    if i > p.len() {
                        assert((p + seq![op.kind] + q)[i] == q[i - p.len() - 1]);
                    }
                }
            }
        },
        _ => {
            lemma_reorder_idempotent(e);
        },
    }
}

/// Reordering an already reordered tree changes nothing.
pub proof fn lemma_reorder_idempotent(e: Expression)
    ensures
        reordered(reordered(e)) == reordered(e),
        !is_chain_link(e) ==> !is_chain_link(reordered(e)),
    decreases e, 0nat,
{
    match e {
        Expression::LetVariableDeclaration { name, initializer } => {
            lemma_reorder_idempotent(*initializer);
        },
        Expression::Parenthesized { expression } => {
            lemma_reorder_idempotent(*expression);
        },
        Expression::BinaryOp { left, op, right } => {
            if op.kind is Equals {
                lemma_reorder_idempotent(*left);
                lemma_reorder_idempotent(*right);
            } else {
                lemma_chain_fixed(*left);
                lemma_chain_fixed(*right);
                lemma_chain_lengths(*left);
                lemma_chain_lengths(*right);
                let xs = chain_operands(*left) + chain_operands(*right);
                let ops = chain_operators(*left) + seq![op.kind] + chain_operators(*right);
                let a = chain_operands(*left);
                let p = chain_operators(*left);
                let q = chain_operators(*right);
                assert forall|i: int| 0 <= i < xs.len() implies !is_chain_link(#[trigger] xs[i])
                    && reordered(xs[i]) == xs[i] by {
                    if i >= a.len() {
                        assert(xs[i] == chain_operands(*right)[i - a.len()]);
                    }
                }
                assert forall|i: int| 0 <= i < ops.len() implies !(#[trigger] ops[i] is Equals) by {
                    if i > p.len() {
                        assert(ops[i] == q[i - p.len() - 1]);
                    }
                }
                let n = ops.len() as int;
                lemma_split_point_bounds(ops, 0, n);
                let k = split_point(ops, 0, n);
                let g = grouped(xs, ops, 0, n);
                lemma_grouped_chain(xs, ops, 0, k);
                lemma_grouped_chain(xs, ops, k + 1, n);
                assert(xs.subrange(0, k + 1) + xs.subrange(k + 1, n + 1) =~= xs);
                assert(ops.subrange(0, k) + seq![ops[k]] + ops.subrange(k + 1, n) =~= ops);
            }
        },
        _ => {},
    }
}

fn split_point_of(ops: &Vec<OperatorKind>, lo: usize, hi: usize) -> (r: usize)
    requires
        lo < hi <= ops@.len(),
    ensures
        r as int == split_point(ops@, lo as int, hi as int),
        lo <= r < hi,
    decreases hi - lo,
{
    if hi - lo <= 1 {
        lo
    } else {
        let k = split_point_of(ops, lo + 1, hi);
        if precedence_of(&ops[lo]) < precedence_of(&ops[k]) {
            lo
        } else {
            k
        }
    }
}

fn group(xs: &Vec<Expression>, ops: &Vec<OperatorKind>, lo: usize, hi: usize) -> (r: Expression)
    requires
        lo <= hi,
        hi < xs@.len(),
        hi <= ops@.len(),
    ensures
        r == grouped(xs@, ops@, lo as int, hi as int),
    decreases hi - lo,
{
    if hi <= lo {
        xs[lo].duplicate()
    } else {
        let k = split_point_of(ops, lo, hi);
        let left = group(xs, ops, lo, k);
        let right = group(xs, ops, k + 1, hi);
        Expression::BinaryOp {
            left: Box::new(left),
            op: Operator { kind: ops[k] },
            right: Box::new(right),
        }
    }
}

fn collect_chain(e: &Expression, xs: &mut Vec<Expression>, ops: &mut Vec<OperatorKind>)
    ensures
        final(xs)@ == old(xs)@ + chain_operands(*e),
        final(ops)@ == old(ops)@ + chain_operators(*e),
    decreases e, 1nat,
{
    match e {
        Expression::BinaryOp { left, op, right } => {
            if op.is_equals() {
                xs.push(reorder_expression(e));
                proof {
                    assert(final(ops)@ =~= old(ops)@ + chain_operators(*e));
                }
            } else {
                collect_chain(left, xs, ops);
                ops.push(op.kind);
                collect_chain(right, xs, ops);
                proof {
                    assert(final(xs)@ =~= old(xs)@ + chain_operands(*e));
                    assert(final(ops)@ =~= old(ops)@ + chain_operators(*e));
                }
            }
        },
        _ => {
            xs.push(reorder_expression(e));
            proof {
                assert(final(ops)@ =~= old(ops)@ + chain_operators(*e));
            }
        },
    }
}

/// Regroups every chain of arithmetic and comparison operators in the tree
/// by precedence, whatever grouping the parser produced.
pub fn reorder_expression(e: &Expression) -> (r: Expression)
    ensures
        r == reordered(*e),
    decreases e, 0nat,
{
    match e {
        Expression::LetVariableDeclaration { name, initializer } => {
            Expression::LetVariableDeclaration {
                name: name.clone(),
                initializer: Box::new(reorder_expression(initializer)),
            }
        },
        Expression::Parenthesized { expression } => Expression::Parenthesized {
            expression: Box::new(reorder_expression(expression)),
        },
        Expression::BinaryOp { left, op, right } => {
            if op.is_equals() {
                Expression::BinaryOp {
                    left: Box::new(reorder_expression(left)),
                    op: *op,
                    right: Box::new(reorder_expression(right)),
                }
            } else {
                let mut xs: Vec<Expression> = Vec::new();
                let mut ops: Vec<OperatorKind> = Vec::new();
                collect_chain(left, &mut xs, &mut ops);
                ops.push(op.kind);
                collect_chain(right, &mut xs, &mut ops);
                proof {
                    lemma_chain_lengths(**left);
                    lemma_chain_lengths(**right);
                    assert(xs@ =~= chain_operands(**left) + chain_operands(**right));
                    assert(ops@ =~= chain_operators(**left) + seq![op.kind] + chain_operators(
                        **right,
                    ));
                }
                group(&xs, &ops, 0, ops.len())
            }
        },
        _ => e.duplicate(),
    }
}

/// Reorders each statement of a program.
pub fn reorder_program(program: &Program) -> (r: Program)
    ensures
        r.expressions@ == program.expressions@.map_values(|e: Expression| reordered(e)),
{
    let mut out: Vec<Expression> = Vec::new();
    let mut i: usize = 0;
    while i < program.expressions.len()
        invariant
            i <= program.expressions@.len(),
            out@ =~= program.expressions@.take(i as int).map_values(|e: Expression| reordered(e)),
        decreases program.expressions@.len() - i,
    {
        out.push(reorder_expression(&program.expressions[i]));
        i = i + 1;
    }
    proof {
        assert(program.expressions@.take(i as int) =~= program.expressions@);
    }
    Program { expressions: out }
}

} // verus!
