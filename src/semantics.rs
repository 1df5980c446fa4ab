use vstd::prelude::*;

use crate::error::EngineError;
use crate::execution_engine::{
    assigned, collected, eval, eval_block, failed, initial_state, innermost, lookup, run_program,
    sweep_scopes, ticked, undefined_name, EngineState, Halt, Outcome,
};
use crate::execution_scope::bound_ids;
use crate::expression::{
    chain_operands, chain_operators, grouped, is_chain_link, reordered, split_point, Expression,
    Operator, OperatorKind, Program,
};
use crate::javascript_object::JavascriptObjectRef;

verus! {

/// Every name bound in some scope stays bound in that scope: evaluation
/// adds and rebinds names, never removes one, and keeps the stack's height.
pub open spec fn keeps_names(s: EngineState, t: EngineState) -> bool {
    &&& t.scopes.len() == s.scopes.len()
    &&& forall|k: int, n: Seq<char>|
        0 <= k < s.scopes.len() && #[trigger] s.scopes[k].contains_key(n)
            ==> t.scopes[k].contains_key(n)
}

proof fn lemma_innermost_bounds(scopes: Seq<Map<Seq<char>, JavascriptObjectRef>>, name: Seq<char>)
    ensures
        -1 <= innermost(scopes, name) < scopes.len(),
        innermost(scopes, name) >= 0 ==> scopes[innermost(scopes, name)].contains_key(name),
        (exists|k: int| 0 <= k < scopes.len() && scopes[k].contains_key(name)) ==> innermost(
            scopes,
            name,
        ) >= 0,
    decreases scopes.len(),
{
    if scopes.len() > 0 {
        lemma_innermost_bounds(scopes.drop_last(), name);
        if exists|k: int| 0 <= k < scopes.len() && scopes[k].contains_key(name) {
            let k = choose|k: int| 0 <= k < scopes.len() && scopes[k].contains_key(name);
            if k < scopes.len() - 1 {
                assert(scopes.drop_last()[k] == scopes[k]);
            }
        }
    }
}

proof fn lemma_ticked_keeps(s: EngineState)
    ensures
        ticked(s).scopes == s.scopes,
        ticked(s).undefined == s.undefined,
        ticked(s).true_object == s.true_object,
        ticked(s).false_object == s.false_object,
{
}

proof fn lemma_assigned_keeps(s: EngineState, name: Seq<char>, o: JavascriptObjectRef)
    ensures
        keeps_names(s, assigned(s, name, o)),
{
    lemma_innermost_bounds(s.scopes, name);
}

/// Evaluation never unbinds a name.
pub proof fn lemma_eval_keeps_names(s: EngineState, e: Expression)
    requires
        s.scopes.len() >= 1,
    ensures
        keeps_names(s, eval(s, e).0),
    decreases e,
{
    match e {
        Expression::LetVariableDeclaration { name, initializer } => {
            lemma_eval_keeps_names(s, *initializer);
            let s1 = eval(s, *initializer).0;
            assert forall|k: int, n: Seq<char>|
                0 <= k < s.scopes.len() && #[trigger] s.scopes[k].contains_key(n)
                    implies eval(s, e).0.scopes[k].contains_key(n) by {
                assert(s1.scopes[k].contains_key(n));
            }
        },
        Expression::Parenthesized { expression } => {
            lemma_eval_keeps_names(s, *expression);
        },
        Expression::BinaryOp { left, op, right } => {
            if op.kind is Equals {
                match *left {
                    Expression::Identifier { name } => {
                        lemma_eval_keeps_names(s, *right);
                        let s1 = eval(s, *right).0;
                        if let Ok(v) = eval(s, *right).1 {
                            lemma_assigned_keeps(s1, name@, v);
                        }
                    },
                    _ => {},
                }
            } else {
                lemma_eval_keeps_names(s, *left);
                lemma_eval_keeps_names(eval(s, *left).0, *right);
            }
        },
        _ => {},
    }
}

/// A fresh engine answers two lookups of `undefined` with one and the same
/// object: the singleton with id 0, never a new allocation.
pub proof fn lemma_undefined_is_singleton(results: Seq<u64>, name: String)
    requires
        name@ == undefined_name(),
    ensures
        ({
            let s0 = initial_state(results);
            let e = Expression::Identifier { name };
            let (s1, r1) = eval(s0, e);
            let (s2, r2) = eval(s1, e);
            &&& r1 == Ok::<JavascriptObjectRef, Halt>(s0.undefined)
            &&& r2 == Ok::<JavascriptObjectRef, Halt>(s0.undefined)
            &&& s0.undefined.id == 0
        }),
{
    let s0 = initial_state(results);
    reveal_strlit("undefined");
    reveal_strlit("true");
    reveal_strlit("false");
    assert(undefined_name().len() == 9);
    assert(crate::execution_engine::true_name().len() == 4);
    assert(crate::execution_engine::false_name().len() == 5);
    assert(s0.scopes.last().contains_key(undefined_name()));
    assert(s0.scopes.last()[undefined_name()] == s0.undefined);
    assert(innermost(s0.scopes, undefined_name()) == 0);
    lemma_ticked_keeps(s0);
}

proof fn lemma_innermost_update(
    scopes: Seq<Map<Seq<char>, JavascriptObjectRef>>,
    name: Seq<char>,
    m: Map<Seq<char>, JavascriptObjectRef>,
)
    requires
        innermost(scopes, name) >= 0,
        m.contains_key(name),
    ensures
        innermost(scopes.update(innermost(scopes, name), m), name) == innermost(scopes, name),
    decreases scopes.len(),
{
    let k = innermost(scopes, name);
    let u = scopes.update(k, m);
    lemma_innermost_bounds(scopes, name);
    if k < scopes.len() - 1 {
        assert(u.drop_last() =~= scopes.drop_last().update(k, m));
        lemma_innermost_update(scopes.drop_last(), name, m);
    }
}

/// Assigning to a name that no scope binds fails with identifier-not-found,
/// before the right side is evaluated and with nothing changed.
pub proof fn lemma_assignment_needs_binding(s: EngineState, name: String, right: Expression)
    requires
        lookup(s, name@) is None,
    ensures
        eval(
            s,
            Expression::BinaryOp {
                left: Box::new(Expression::Identifier { name }),
                op: Operator { kind: OperatorKind::Equals },
                right: Box::new(right),
            },
        ) == failed(s, EngineError::IdentifierNotFound { name }),
{
}

/// Assigning to a bound name evaluates to the right side's value, and the
/// name then resolves to that value.
pub proof fn lemma_assignment_rebinds(s: EngineState, name: String, right: Expression)
    requires
        s.scopes.len() >= 1,
        lookup(s, name@) is Some,
        eval(s, right).1 is Ok,
    ensures
        ({
            let (s2, r) = eval(
                s,
                Expression::BinaryOp {
                    left: Box::new(Expression::Identifier { name }),
                    op: Operator { kind: OperatorKind::Equals },
                    right: Box::new(right),
                },
            );
            &&& r == eval(s, right).1
            &&& lookup(s2, name@) == Some(r->Ok_0)
        }),
{
    let (s1, r) = eval(s, right);
    let v = r->Ok_0;
    lemma_innermost_bounds(s.scopes, name@);
    lemma_eval_keeps_names(s, right);
    let k0 = innermost(s.scopes, name@);
    assert(s1.scopes[k0].contains_key(name@));
    lemma_innermost_bounds(s1.scopes, name@);
    let k = innermost(s1.scopes, name@);
    lemma_innermost_update(s1.scopes, name@, s1.scopes[k].insert(name@, v));
    lemma_ticked_keeps(assigned(s1, name@, v));
}

/// Declaring a name that the current scope already binds fails: with
/// duplicate-binding when the initializer succeeds, else with the
/// initializer's own failure.
pub proof fn lemma_redeclaration_fails(s: EngineState, name: String, initializer: Expression)
    requires
        s.scopes.len() >= 1,
        s.scopes.last().contains_key(name@),
    ensures
        ({
            let r = eval(
                s,
                Expression::LetVariableDeclaration { name, initializer: Box::new(initializer) },
            ).1;
            &&& r is Err
            &&& eval(s, initializer).1 is Ok ==> r == Err::<JavascriptObjectRef, Halt>(
                Halt::Failed { error: EngineError::DuplicateBinding { name } },
            )
        }),
{
    lemma_eval_keeps_names(s, initializer);
    assert(s.scopes[s.scopes.len() - 1].contains_key(name@));
}

proof fn lemma_block_append(s: EngineState, es: Seq<Expression>, rest: Seq<Expression>, i: int)
    requires
        0 <= i < es.len(),
    ensures
        ({
            let (s1, r) = eval_block(s, es, i);
            &&& r is Err ==> eval_block(s, es + rest, i) == (s1, r)
            &&& r is Ok && rest.len() > 0 ==> eval_block(s, es + rest, i) == eval_block(
                s1,
                es + rest,
                es.len() as int,
            )
        }),
    decreases es.len() - i,
{
    assert((es + rest)[i] == es[i]);
    let (s1, r) = eval(s, es[i]);
    if r is Ok && i + 1 < es.len() {
        lemma_block_append(s1, es, rest, i + 1);
    }
}

/// A program's value is the value of its last statement, evaluated in the
/// state that the statements before it leave.
pub proof fn lemma_sequence_value(s: EngineState, es: Seq<Expression>, e: Expression)
    requires
        es.len() > 0,
        eval_block(s, es, 0).1 is Ok,
    ensures
        eval_block(s, es.push(e), 0) == eval(eval_block(s, es, 0).0, e),
{
    lemma_block_append(s, es, seq![e], 0);
    assert(es + seq![e] =~= es.push(e));
    let s1 = eval_block(s, es, 0).0;
    assert(es.push(e)[es.len() as int] == e);
}

/// Once a statement fails, the statements after it are not evaluated: the
/// program ends with that failure and the state it left.
pub proof fn lemma_failure_stops(s: EngineState, es: Seq<Expression>, rest: Seq<Expression>)
    requires
        es.len() > 0,
        eval_block(s, es, 0).1 is Err,
    ensures
        eval_block(s, es + rest, 0) == eval_block(s, es, 0),
{
    lemma_block_append(s, es, rest, 0);
}

proof fn lemma_sweep_scopes(
    table: Seq<JavascriptObjectRef>,
    scopes: Seq<Map<Seq<char>, JavascriptObjectRef>>,
    n: int,
)
    requires
        0 <= n <= scopes.len(),
    ensures
        forall|i: int|
            0 <= i < sweep_scopes(table, scopes, n).len() ==> {
                let o = #[trigger] sweep_scopes(table, scopes, n)[i];
                &&& table.contains(o)
                &&& forall|k: int| 0 <= k < n ==> bound_ids(scopes[k]).contains(o.id)
            },
    decreases n,
{
    if n > 0 {
        lemma_sweep_scopes(table, scopes, n - 1);
        let prev = sweep_scopes(table, scopes, n - 1);
        let live = bound_ids(scopes[n - 1]);
        let pred = |o: JavascriptObjectRef| live.contains(o.id);
        assert forall|i: int| 0 <= i < sweep_scopes(table, scopes, n).len() implies {
            let o = #[trigger] sweep_scopes(table, scopes, n)[i];
            &&& table.contains(o)
            &&& forall|k: int| 0 <= k < n ==> bound_ids(scopes[k]).contains(o.id)
        } by {
            let o = sweep_scopes(table, scopes, n)[i];
            assert(sweep_scopes(table, scopes, n) == prev.filter(pred));
            prev.lemma_filter_pred(pred, i);
            assert(prev.filter(pred).contains(o));
            prev.lemma_filter_contains_rev(pred, o);
            assert(prev.contains(o));
            let j = choose|j: int| 0 <= j < prev.len() && prev[j] == o;
            assert(prev[j] == o);
        }
    }
}

/// Garbage collection never disturbs a binding: every name resolves to the
/// same object, with the same value, before and after a tick, whether or
/// not the tick sweeps. A sweep only drops table entries, and keeps just
/// the objects that every scope on the stack binds.
pub proof fn lemma_collection_keeps_bindings(s: EngineState, name: Seq<char>)
    ensures
        lookup(ticked(s), name) == lookup(s, name),
        lookup(collected(s), name) == lookup(s, name),
        forall|i: int|
            0 <= i < collected(s).table.len() ==> {
                let o = #[trigger] collected(s).table[i];
                &&& s.table.contains(o)
                &&& forall|k: int|
                    0 <= k < s.scopes.len() ==> bound_ids(s.scopes[k]).contains(o.id)
            },
{
    lemma_sweep_scopes(s.table, s.scopes, s.scopes.len() as int);
}

/// Reordering restores precedence whichever way the parser nested
/// `a lo b hi c`, with `lo` additive and `hi` multiplicative: both nestings
/// become `a lo (b hi c)`.
pub proof fn lemma_precedence_regardless_of_nesting(
    a: Expression,
    b: Expression,
    c: Expression,
    lo: OperatorKind,
    hi: OperatorKind,
)
    requires
        !is_chain_link(a),
        !is_chain_link(b),
        !is_chain_link(c),
        lo is Plus || lo is Minus,
        hi is Multiply || hi is Divide,
    ensures
        ({
            let expected = Expression::BinaryOp {
                left: Box::new(reordered(a)),
                op: Operator { kind: lo },
                right: Box::new(
                    Expression::BinaryOp {
                        left: Box::new(reordered(b)),
                        op: Operator { kind: hi },
                        right: Box::new(reordered(c)),
                    },
                ),
            };
            let nested_left = Expression::BinaryOp {
                left: Box::new(
                    Expression::BinaryOp {
                        left: Box::new(a),
                        op: Operator { kind: lo },
                        right: Box::new(b),
                    },
                ),
                op: Operator { kind: hi },
                right: Box::new(c),
            };
            let nested_right = Expression::BinaryOp {
                left: Box::new(a),
                op: Operator { kind: lo },
                right: Box::new(
                    Expression::BinaryOp {
                        left: Box::new(b),
                        op: Operator { kind: hi },
                        right: Box::new(c),
                    },
                ),
            };
            &&& reordered(nested_left) == expected
            &&& reordered(nested_right) == expected
        }),
{
    let xs = seq![reordered(a), reordered(b), reordered(c)];
    let ops = seq![lo, hi];
    let ab = Expression::BinaryOp { left: Box::new(a), op: Operator { kind: lo }, right: Box::new(b) };
    let bc = Expression::BinaryOp { left: Box::new(b), op: Operator { kind: hi }, right: Box::new(c) };
    assert(chain_operands(a) == seq![reordered(a)]);
    assert(chain_operands(b) == seq![reordered(b)]);
    assert(chain_operands(c) == seq![reordered(c)]);
    assert(chain_operators(a) == Seq::<OperatorKind>::empty());
    assert(chain_operators(b) == Seq::<OperatorKind>::empty());
    assert(chain_operators(c) == Seq::<OperatorKind>::empty());
    assert(chain_operands(ab) == chain_operands(a) + chain_operands(b));
    assert(chain_operators(ab) == chain_operators(a) + seq![lo] + chain_operators(b));
    assert(chain_operands(bc) == chain_operands(b) + chain_operands(c));
    assert(chain_operators(bc) == chain_operators(b) + seq![hi] + chain_operators(c));
    assert(chain_operands(ab) + chain_operands(c) =~= xs);
    assert(chain_operators(ab) + seq![hi] + chain_operators(c) =~= ops);
    assert(chain_operands(a) + chain_operands(bc) =~= xs);
    assert(chain_operators(a) + seq![lo] + chain_operators(bc) =~= ops);
    assert(split_point(ops, 1, 2) == 1);
    assert(split_point(ops, 0, 2) == 0);
    assert(grouped(xs, ops, 0, 0) == reordered(a));
    assert(grouped(xs, ops, 1, 1) == reordered(b));
    assert(grouped(xs, ops, 2, 2) == reordered(c));
    let inner = Expression::BinaryOp {
        left: Box::new(reordered(b)),
        op: Operator { kind: hi },
        right: Box::new(reordered(c)),
    };
    assert(grouped(xs, ops, 1, 2) == inner);
    let expected = Expression::BinaryOp {
        left: Box::new(reordered(a)),
        op: Operator { kind: lo },
        right: Box::new(inner),
    };
    assert(grouped(xs, ops, 0, 2) == expected);
    let nested_left = Expression::BinaryOp { left: Box::new(ab), op: Operator { kind: hi }, right: Box::new(c) };
    let nested_right = Expression::BinaryOp { left: Box::new(a), op: Operator { kind: lo }, right: Box::new(bc) };
    assert(reordered(nested_left) == grouped(xs, ops, 0, 2));
    assert(reordered(nested_right) == grouped(xs, ops, 0, 2));
}

pub open spec fn with_more_results(s: EngineState, extra: Seq<u64>) -> EngineState {
    EngineState { results: s.results + extra, ..s }
}

pub open spec fn asks_arithmetic(r: Outcome) -> bool {
    r matches Err(Halt::NeedsArithmetic { .. })
}

proof fn lemma_eval_more_results(s: EngineState, e: Expression, extra: Seq<u64>)
    requires
        !asks_arithmetic(eval(s, e).1),
    ensures
        eval(with_more_results(s, extra), e) == (
        with_more_results(eval(s, e).0, extra),
        eval(s, e).1,
    ),
    decreases e,
{
    let t = with_more_results(s, extra);
    match e {
        Expression::LetVariableDeclaration { name, initializer } => {
            lemma_eval_more_results(s, *initializer, extra);
        },
        Expression::Parenthesized { expression } => {
            lemma_eval_more_results(s, *expression, extra);
        },
        Expression::BinaryOp { left, op, right } => {
            if op.kind is Equals {
                if let Expression::Identifier { name } = *left {
                    if lookup(s, name@) is Some {
                        lemma_eval_more_results(s, *right, extra);
                    }
                }
            } else {
                lemma_eval_more_results(s, *left, extra);
                let (s1, r1) = eval(s, *left);
                if r1 is Ok {
                    lemma_eval_more_results(s1, *right, extra);
                    let (s2, r2) = eval(s1, *right);
                    if r2 is Ok && !(op.kind is EqualsEquals) {
                        assert(0 <= s2.next_result < s2.results.len());
                        assert((s2.results + extra)[s2.next_result] == s2.results[s2.next_result]);
                    }
                }
            }
        },
        _ => {},
    }
}

proof fn lemma_block_more_results(s: EngineState, es: Seq<Expression>, i: int, extra: Seq<u64>)
    requires
        !asks_arithmetic(eval_block(s, es, i).1),
    ensures
        eval_block(with_more_results(s, extra), es, i) == (
        with_more_results(eval_block(s, es, i).0, extra),
        eval_block(s, es, i).1,
    ),
    decreases es.len() - i,
{
    if 0 <= i < es.len() {
        let (s1, r) = eval(s, es[i]);
        if r is Ok && i + 1 < es.len() {
            lemma_block_more_results(s1, es, i + 1, extra);
        }
        lemma_eval_more_results(s, es[i], extra);
    }
}

/// Evaluation is deterministic in the arithmetic results it is given: once a
/// program finishes (with a value or an error) without asking for more,
/// supplying further results changes nothing. A caller that appends each
/// requested result and evaluates again thus gets the answer of a single
/// uninterrupted run.
pub proof fn lemma_extra_results_change_nothing(p: Program, results: Seq<u64>, extra: Seq<u64>)
    requires
        !asks_arithmetic(run_program(p, results)),
    ensures
        run_program(p, results + extra) == run_program(p, results),
{
    let es = p.expressions@.map_values(|e: Expression| reordered(e));
    assert(initial_state(results + extra) == with_more_results(initial_state(results), extra));
    lemma_block_more_results(initial_state(results), es, 0, extra);
}

} // verus!
