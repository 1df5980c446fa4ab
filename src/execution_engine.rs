use vstd::prelude::*;

use crate::error::EngineError;
use crate::execution_scope::{bound_ids, ExecutionScope};
use crate::expression::{reorder_program, reordered, Expression, OperatorKind, Program};
use crate::javascript_object::{
    loosely_equal, number_of, JavascriptObjectKind, JavascriptObjectRef,
};
use crate::memory::{swept, Memory};

verus! {

/// A floating-point operation that evaluation needs and leaves to its caller:
/// `op` is one of the four arithmetic operators, and `left` and `right` are
/// the bits of its operands after numeric coercion.
#[derive(Debug, PartialEq)]
pub struct ArithmeticRequest {
    pub op: OperatorKind,
    pub left: u64,
    pub right: u64,
}

/// Why evaluation stopped without a result: an error, or an arithmetic
/// operation whose result the caller has not supplied yet.
#[derive(Debug, PartialEq)]
pub enum Halt {
    Failed { error: EngineError },
    NeedsArithmetic { request: ArithmeticRequest },
}

pub type Outcome = Result<JavascriptObjectRef, Halt>;

/// The state of an engine: its scope stack (bottom first), the heap table,
/// the id and tick counters, the three singletons, and the arithmetic
/// results supplied by the caller with how many were taken.
pub struct EngineState {
    pub scopes: Seq<Map<Seq<char>, JavascriptObjectRef>>,
    pub table: Seq<JavascriptObjectRef>,
    pub next_id: u64,
    pub tick: u64,
    pub undefined: JavascriptObjectRef,
    pub true_object: JavascriptObjectRef,
    pub false_object: JavascriptObjectRef,
    pub results: Seq<u64>,
    pub next_result: int,
}

pub open spec fn undefined_name() -> Seq<char> {
    "undefined"@
}

pub open spec fn true_name() -> Seq<char> {
    "true"@
}

pub open spec fn false_name() -> Seq<char> {
    "false"@
}

/// The index of the innermost scope that binds `name`, or -1.
pub open spec fn innermost(scopes: Seq<Map<Seq<char>, JavascriptObjectRef>>, name: Seq<char>) -> int
    decreases scopes.len(),
{
    if scopes.len() == 0 {
        -1
    } else if scopes.last().contains_key(name) {
        scopes.len() - 1
    } else {
        innermost(scopes.drop_last(), name)
    }
}

/// Resolves a name through the scope chain, innermost scope first.
pub open spec fn lookup(s: EngineState, name: Seq<char>) -> Option<JavascriptObjectRef> {
    let k = innermost(s.scopes, name);
    if k < 0 {
        None
    } else {
        Some(s.scopes[k][name])
    }
}

/// Rebinds `name` in the innermost scope that binds it.
pub open spec fn assigned(s: EngineState, name: Seq<char>, o: JavascriptObjectRef) -> EngineState {
    let k = innermost(s.scopes, name);
    if k < 0 {
        s
    } else {
        EngineState { scopes: s.scopes.update(k, s.scopes[k].insert(name, o)), ..s }
    }
}

/// The table after sweeping it once for each of the first `n` scopes, each
/// sweep keeping only the ids that that one scope binds.
pub open spec fn sweep_scopes(
    table: Seq<JavascriptObjectRef>,
    scopes: Seq<Map<Seq<char>, JavascriptObjectRef>>,
    n: int,
) -> Seq<JavascriptObjectRef>
    decreases n,
{
    if n <= 0 {
        table
    } else {
        swept(sweep_scopes(table, scopes, n - 1), bound_ids(scopes[n - 1]))
    }
}

pub open spec fn collected(s: EngineState) -> EngineState {
    EngineState { table: sweep_scopes(s.table, s.scopes, s.scopes.len() as int), ..s }
}

/// One more node evaluated: the tick advances and, on every tenth tick, the
/// garbage is collected.
pub open spec fn ticked(s: EngineState) -> EngineState {
    let t: u64 = if s.tick == u64::MAX {
        0
    } else {
        (s.tick + 1) as u64
    };
    let s1 = EngineState { tick: t, ..s };
    if t % 10 == 0 {
        collected(s1)
    } else {
        s1
    }
}

pub open spec fn fresh_object(s: EngineState, kind: JavascriptObjectKind) -> JavascriptObjectRef {
    JavascriptObjectRef { id: s.next_id, kind }
}

pub open spec fn failed(s: EngineState, error: EngineError) -> (EngineState, Outcome) {
    (s, Err(Halt::Failed { error }))
}

/// Allocates an object of `kind` as the value of the node just evaluated.
pub open spec fn allocated(s: EngineState, kind: JavascriptObjectKind) -> (EngineState, Outcome) {
    if s.next_id == u64::MAX {
        failed(s, EngineError::ResourceExhausted)
    } else {
        let o = fresh_object(s, kind);
        let s1 = EngineState { table: s.table.push(o), next_id: (s.next_id + 1) as u64, ..s };
        (ticked(s1), Ok(o))
    }
}

/// Applies a non-assignment operator to two evaluated operands.
pub open spec fn combined(
    s: EngineState,
    op: OperatorKind,
    a: JavascriptObjectRef,
    b: JavascriptObjectRef,
) -> (EngineState, Outcome) {
    match op {
        OperatorKind::EqualsEquals => (
            ticked(s),
            Ok(
                if loosely_equal(a.kind, b.kind) {
                    s.true_object
                } else {
                    s.false_object
                },
            ),
        ),
        _ => if 0 <= s.next_result < s.results.len() {
            let v = s.results[s.next_result];
            allocated(
                EngineState { next_result: s.next_result + 1, ..s },
                JavascriptObjectKind::Number { value: v },
            )
        } else {
            (
                s,
                Err(
                    Halt::NeedsArithmetic {
                        request: ArithmeticRequest {
                            op,
                            left: number_of(a.kind),
                            right: number_of(b.kind),
                        },
                    },
                ),
            )
        },
    }
}

/// Evaluates one expression: the state afterwards and the outcome.
pub open spec fn eval(s: EngineState, e: Expression) -> (EngineState, Outcome)
    decreases e,
{
    match e {
        Expression::LetVariableDeclaration { name, initializer } => {
            let (s1, r) = eval(s, *initializer);
            match r {
                Err(h) => (s1, Err(h)),
                Ok(o) => {
                    let cur = s1.scopes.last();
                    if cur.contains_key(name@) {
                        failed(s1, EngineError::DuplicateBinding { name })
                    } else {
                        let s2 = EngineState {
                            scopes: s1.scopes.update(s1.scopes.len() - 1, cur.insert(name@, o)),
                            ..s1
                        };
                        (ticked(s2), Ok(o))
                    }
                },
            }
        },
        Expression::NumberLiteral { value } => allocated(s, JavascriptObjectKind::Number { value }),
        Expression::StringLiteral { value, number } => allocated(
            s,
            JavascriptObjectKind::String { text: value, number },
        ),
        Expression::Parenthesized { expression } => {
            let (s1, r) = eval(s, *expression);
            match r {
                Err(h) => (s1, Err(h)),
                Ok(o) => (ticked(s1), Ok(o)),
            }
        },
        Expression::Identifier { name } => match lookup(s, name@) {
            Some(o) => (ticked(s), Ok(o)),
            None => failed(s, EngineError::IdentifierNotFound { name }),
        },
        Expression::BinaryOp { left, op, right } => {
            if op.kind is Equals {
                match *left {
                    Expression::Identifier { name } => {
                        if lookup(s, name@) is None {
                            failed(s, EngineError::IdentifierNotFound { name })
                        } else {
                            let (s1, r) = eval(s, *right);
                            match r {
                                Err(h) => (s1, Err(h)),
                                Ok(v) => (ticked(assigned(s1, name@, v)), Ok(v)),
                            }
                        }
                    },
                    _ => failed(s, EngineError::InvalidAssignmentTarget),
                }
            } else {
                let (s1, r1) = eval(s, *left);
                match r1 {
                    Err(h) => (s1, Err(h)),
                    Ok(a) => {
                        let (s2, r2) = eval(s1, *right);
                        match r2 {
                            Err(h) => (s2, Err(h)),
                            Ok(b) => combined(s2, op.kind, a, b),
                        }
                    },
                }
            }
        },
    }
}

/// Evaluates the statements from index `i` on: the value is that of the
/// last statement, or undefined when there is none; the first failure ends
/// the run.
pub open spec fn eval_block(s: EngineState, es: Seq<Expression>, i: int) -> (EngineState, Outcome)
    decreases es.len() - i,
{
    if i < 0 || i >= es.len() {
        (s, Ok(s.undefined))
    } else {
        let (s1, r) = eval(s, es[i]);
        match r {
            Err(h) => (s1, Err(h)),
            Ok(v) => if i + 1 == es.len() {
                (s1, Ok(v))
            } else {
                eval_block(s1, es, i + 1)
            },
        }
    }
}

/// The state of a fresh engine: the singletons `undefined`, `true` and
/// `false` hold ids 0, 1 and 2 and are bound in the global scope.
pub open spec fn initial_state(results: Seq<u64>) -> EngineState {
    let u = JavascriptObjectRef { id: 0, kind: JavascriptObjectKind::Undefined };
    let t = JavascriptObjectRef { id: 1, kind: JavascriptObjectKind::Boolean { value: true } };
    let f = JavascriptObjectRef { id: 2, kind: JavascriptObjectKind::Boolean { value: false } };
    EngineState {
        scopes: seq![
            Map::empty().insert(undefined_name(), u).insert(true_name(), t).insert(
                false_name(),
                f,
            ),
        ],
        table: seq![u, t, f],
        next_id: 3,
        tick: 0,
        undefined: u,
        true_object: t,
        false_object: f,
        results,
        next_result: 0,
    }
}

/// What a program evaluates to on a fresh engine given the arithmetic
/// results supplied so far: its statements are regrouped by precedence, then
/// evaluated in order.
pub open spec fn run_program(p: Program, results: Seq<u64>) -> Outcome {
    eval_block(
        initial_state(results),
        p.expressions@.map_values(|e: Expression| reordered(e)),
        0,
    ).1
}

/// An interpreter instance: a stack of scopes (the global scope at the
/// bottom), the heap, the tick counter that paces garbage collection, and
/// the singletons of this instance.
///
/// Floating-point arithmetic is left to the caller. Evaluation takes the
/// results of `+ - * /` from `arithmetic_results`, in the order the
/// operations occur; when it reaches an operation past the end of that list
/// it halts with the operation's operands. Evaluation is deterministic, so a
/// caller that computes the operation and evaluates again with the result
/// appended reaches the same point and goes on.
pub struct ExecutionEngine {
    scopes: Vec<ExecutionScope>,
    memory: Memory,
    execution_tick: u64,
    undefined: JavascriptObjectRef,
    true_object: JavascriptObjectRef,
    false_object: JavascriptObjectRef,
    arithmetic_results: Vec<u64>,
    next_result: usize,
}

impl View for ExecutionEngine {
    type V = EngineState;

    closed spec fn view(&self) -> EngineState {
        EngineState {
            scopes: self.scopes@.map_values(|sc: ExecutionScope| sc@),
            table: self.memory.table@,
            next_id: self.memory.next_id,
            tick: self.execution_tick,
            undefined: self.undefined,
            true_object: self.true_object,
            false_object: self.false_object,
            results: self.arithmetic_results@,
            next_result: self.next_result as int,
        }
    }
}

impl ExecutionEngine {
    pub closed spec fn wf(&self) -> bool {
        &&& self.scopes@.len() >= 1
        &&& forall|i: int| 0 <= i < self.scopes@.len() ==> (#[trigger] self.scopes@[i]).wf()
        &&& self.next_result <= self.arithmetic_results@.len()
    }

    fn new(arithmetic_results: Vec<u64>) -> (r: Self)
        ensures
            r.wf(),
            r@ == initial_state(arithmetic_results@),
    {
        let placeholder = JavascriptObjectRef { id: 0, kind: JavascriptObjectKind::Undefined };
        let mut engine = ExecutionEngine {
            scopes: Vec::new(),
            memory: Memory::new(),
            execution_tick: 0,
            undefined: placeholder.duplicate(),
            true_object: placeholder.duplicate(),
            false_object: placeholder,
            arithmetic_results,
            next_result: 0,
        };
        engine.initialize_global_scope();
        engine
    }

    fn initialize_global_scope(&mut self)
        requires
            old(self).scopes@.len() == 0,
            old(self).memory.table@.len() == 0,
            old(self).memory.next_id == 0,
            old(self).execution_tick == 0,
            old(self).next_result == 0,
        ensures
            final(self).wf(),
            final(self)@ == initial_state(old(self).arithmetic_results@),
    {
        proof {
            reveal_strlit("undefined");
            reveal_strlit("true");
            reveal_strlit("false");
            assert(undefined_name().len() == 9);
            assert(true_name().len() == 4);
            assert(false_name().len() == 5);
        }
        let mut global_scope = ExecutionScope::new();
        let undefined = self.memory.allocate_undefined().unwrap();
        let true_object = self.memory.allocate_boolean(true).unwrap();
        let false_object = self.memory.allocate_boolean(false).unwrap();
        global_scope.define("undefined".to_owned(), undefined.duplicate()).unwrap();
        global_scope.define("true".to_owned(), true_object.duplicate()).unwrap();
        global_scope.define("false".to_owned(), false_object.duplicate()).unwrap();
        self.undefined = undefined;
        self.true_object = true_object;
        self.false_object = false_object;
        self.scopes.push(global_scope);
        proof {
            assert(self@.scopes =~= initial_state(self.arithmetic_results@).scopes);
            assert(self@.table =~= initial_state(self.arithmetic_results@).table);
        }
    }

    fn get_undefined(&self) -> (r: JavascriptObjectRef)
        ensures
            r == self@.undefined,
    {
        self.undefined.duplicate()
    }

    fn get_boolean(&self, value: bool) -> (r: JavascriptObjectRef)
        ensures
            r == (if value {
                self@.true_object
            } else {
                self@.false_object
            }),
    {
        if value {
            self.true_object.duplicate()
        } else {
            self.false_object.duplicate()
        }
    }

    /// The index of the innermost scope that binds `name`.
    fn find_scope(&self, name: &String) -> (r: Option<usize>)
        requires
            self.wf(),
        ensures
            match r {
                Some(k) => k == innermost(self@.scopes, name@) && k < self@.scopes.len()
                    && self@.scopes[k as int].contains_key(name@),
                None => innermost(self@.scopes, name@) == -1,
            },
    {
        let ghost scopes = self@.scopes;
        let mut i: usize = self.scopes.len();
        proof {
            assert(scopes.take(i as int) =~= scopes);
        }
        while i > 0
            invariant
                i <= self.scopes@.len(),
                scopes == self@.scopes,
                scopes.len() == self.scopes@.len(),
                forall|j: int| 0 <= j < self.scopes@.len() ==> (#[trigger] self.scopes@[j]).wf(),
                innermost(scopes, name@) == innermost(scopes.take(i as int), name@),
            decreases i,
        {
            let found = self.scopes[i - 1].get(name);
            proof {
                assert(scopes[i - 1] == self.scopes@[i - 1]@);
                assert(scopes.take(i as int).drop_last() =~= scopes.take(i - 1));
                assert(scopes.take(i as int).last() == scopes[i - 1]);
            }
            if found.is_some() {
                return Some(i - 1);
            }
            i = i - 1;
        }
        None
    }

    fn get_variable(&self, name: &String) -> (r: Option<JavascriptObjectRef>)
        requires
            self.wf(),
        ensures
            r == lookup(self@, name@),
    {
        match self.find_scope(name) {
            Some(k) => {
                proof {
                    assert(self@.scopes[k as int] == self.scopes@[k as int]@);
                }
                self.scopes[k].get(name)
            },
            None => None,
        }
    }

    fn assign_variable(&mut self, name: &String, object: JavascriptObjectRef)
        requires
            old(self).wf(),
        ensures
            final(self).wf(),
            final(self)@ == assigned(old(self)@, name@, object),
    {
        match self.find_scope(name) {
            Some(k) => {
                let ghost before = self.scopes@;
                let mut scope = self.scopes.remove(k);
                proof {
                    assert(scope@ == old(self)@.scopes[k as int]);
                }
                scope.assign(name, object);
                self.scopes.insert(k, scope);
                proof {
                    assert(self.scopes@ =~= before.update(k as int, scope));
                    assert forall|i: int| 0 <= i < self.scopes@.len() implies (
                    #[trigger] self.scopes@[i]).wf() by {
                        if i != k {
                            assert(self.scopes@[i] == before[i]);
                        }
                    }
                    assert(self@.scopes =~= assigned(old(self)@, name@, object).scopes);
                }
            },
            None => {},
        }
    }

    /// Binds a name in the current (innermost) scope.
    fn define_variable(&mut self, name: String, object: JavascriptObjectRef) -> (r: Result<
        (),
        EngineError,
    >)
        requires
            old(self).wf(),
        ensures
            final(self).wf(),
            old(self)@.scopes.last().contains_key(name@) ==> r == Err::<(), EngineError>(
                EngineError::DuplicateBinding { name },
            ) && final(self)@ == old(self)@,
            !old(self)@.scopes.last().contains_key(name@) ==> r is Ok && final(self)@ == (
            EngineState {
                scopes: old(self)@.scopes.update(
                    old(self)@.scopes.len() - 1,
                    old(self)@.scopes.last().insert(name@, object),
                ),
                ..old(self)@
            }),
    {
        let ghost before = self.scopes@;
        let mut scope = self.scopes.pop().unwrap();
        proof {
            assert(self.scopes@ =~= before.drop_last());
            assert(scope@ == old(self)@.scopes.last());
        }
        let r = scope.define(name, object);
        self.scopes.push(scope);
        proof {
            assert(self.scopes@ =~= before.update(before.len() - 1, scope));
            assert forall|i: int| 0 <= i < self.scopes@.len() implies (
            #[trigger] self.scopes@[i]).wf() by {
                if i != before.len() - 1 {
                    assert(self.scopes@[i] == before[i]);
                }
            }
            if r is Err {
                assert(self@.scopes =~= old(self)@.scopes);
            } else {
                assert(self@.scopes =~= old(self)@.scopes.update(
                    old(self)@.scopes.len() - 1,
                    old(self)@.scopes.last().insert(name@, object),
                ));
            }
        }
        r
    }

    fn collect_garbage(&mut self)
        requires
            old(self).wf(),
        ensures
            final(self).wf(),
            final(self)@ == collected(old(self)@),
    {
        let ghost scopes = self@.scopes;
        let ghost table = self@.table;
        let mut i: usize = 0;
        while i < self.scopes.len()
            invariant
                i <= self.scopes@.len(),
                self.wf(),
                self@ == (EngineState { table: sweep_scopes(table, scopes, i as int), ..old(self)@ }),
                scopes == old(self)@.scopes,
                table == old(self)@.table,
            decreases self.scopes@.len() - i,
        {
            let ids = self.scopes[i].get_variable_ids();
            proof {
                assert(scopes[i as int] == self.scopes@[i as int]@);
            }
            self.memory.deallocate_except_ids(&ids);
            i = i + 1;
        }
        proof {
            assert(self@.table == collected(old(self)@).table);
        }
    }

    fn tick(&mut self)
        requires
            old(self).wf(),
        ensures
            final(self).wf(),
            final(self)@ == ticked(old(self)@),
    {
        if self.execution_tick == u64::MAX {
            self.execution_tick = 0;
        } else {
            self.execution_tick = self.execution_tick + 1;
        }
        if self.execution_tick % 10 == 0 {
            self.collect_garbage();
        }
    }

    fn allocate_value(&mut self, kind: JavascriptObjectKind) -> (r: Outcome)
        requires
            old(self).wf(),
        ensures
            final(self).wf(),
            (final(self)@, r) == allocated(old(self)@, kind),
    {
        match self.memory.allocate(kind) {
            None => Err(Halt::Failed { error: EngineError::ResourceExhausted }),
            Some(object) => {
                self.tick();
                Ok(object)
            },
        }
    }

    fn execute_expression(&mut self, expression: &Expression) -> (r: Outcome)
        requires
            old(self).wf(),
        ensures
            final(self).wf(),
            (final(self)@, r) == eval(old(self)@, *expression),
        decreases expression,
    {
        match expression {
            Expression::LetVariableDeclaration { name, initializer } => {
                match self.execute_expression(initializer) {
                    Err(h) => Err(h),
                    Ok(object) => match self.define_variable(name.clone(), object.duplicate()) {
                        Err(error) => Err(Halt::Failed { error }),
                        Ok(()) => {
                            self.tick();
                            Ok(object)
                        },
                    },
                }
            },
            Expression::NumberLiteral { value } => {
                self.allocate_value(JavascriptObjectKind::Number { value: *value })
            },
            Expression::StringLiteral { value, number } => {
                self.allocate_value(
                    JavascriptObjectKind::String { text: value.clone(), number: *number },
                )
            },
            Expression::Parenthesized { expression } => {
                match self.execute_expression(expression) {
                    Err(h) => Err(h),
                    Ok(object) => {
                        self.tick();
                        Ok(object)
                    },
                }
            },
            Expression::Identifier { name } => match self.get_variable(name) {
                Some(object) => {
                    self.tick();
                    Ok(object)
                },
                None => Err(
                    Halt::Failed { error: EngineError::IdentifierNotFound { name: name.clone() } },
                ),
            },
            Expression::BinaryOp { left, op, right } => {
                if op.is_equals() {
                    match &**left {
                        Expression::Identifier { name } => {
                            if self.get_variable(name).is_none() {
                                return Err(
                                    Halt::Failed {
                                        error: EngineError::IdentifierNotFound {
                                            name: name.clone(),
                                        },
                                    },
                                );
                            }
                            match self.execute_expression(right) {
                                Err(h) => Err(h),
                                Ok(value) => {
                                    self.assign_variable(name, value.duplicate());
                                    self.tick();
                                    Ok(value)
                                },
                            }
                        },
                        _ => Err(Halt::Failed { error: EngineError::InvalidAssignmentTarget }),
                    }
                } else {
                    let left_result = match self.execute_expression(left) {
                        Err(h) => return Err(h),
                        Ok(object) => object,
                    };
                    let right_result = match self.execute_expression(right) {
                        Err(h) => return Err(h),
                        Ok(object) => object,
                    };
                    self.combine(&op.kind, &left_result, &right_result)
                }
            },
        }
    }

    fn combine(
        &mut self,
        op: &OperatorKind,
        left: &JavascriptObjectRef,
        right: &JavascriptObjectRef,
    ) -> (r: Outcome)
        requires
            old(self).wf(),
        ensures
            final(self).wf(),
            (final(self)@, r) == combined(old(self)@, *op, *left, *right),
    {
        match op {
            OperatorKind::EqualsEquals => {
                let equal = left.kind.is_equal_to_non_strict(&right.kind);
                let object = self.get_boolean(equal);
                self.tick();
                Ok(object)
            },
            _ => {
                if self.next_result < self.arithmetic_results.len() {
                    let value = self.arithmetic_results[self.next_result];
                    self.next_result = self.next_result + 1;
                    self.allocate_value(JavascriptObjectKind::Number { value })
                } else {
                    Err(
                        Halt::NeedsArithmetic {
                            request: ArithmeticRequest {
                                op: *op,
                                left: left.kind.cast_to_number(),
                                right: right.kind.cast_to_number(),
                            },
                        },
                    )
                }
            },
        }
    }

    /// Evaluates the statements of a program in order; see `eval_block`.
    fn execute_program(&mut self, program: &Program) -> (r: Outcome)
        requires
            old(self).wf(),
        ensures
            final(self).wf(),
            (final(self)@, r) == eval_block(old(self)@, program.expressions@, 0),
    {
        let es = &program.expressions;
        let ghost all = es@;
        if es.len() == 0 {
            return Ok(self.get_undefined());
        }
        let mut i: usize = 0;
        while i < es.len()
            invariant
                0 <= i < es@.len(),
                all == es@,
                all == program.expressions@,
                self.wf(),
                eval_block(old(self)@, all, 0) == eval_block(self@, all, i as int),
            decreases es@.len() - i,
        {
            let ghost pre = self@;
            let r = self.execute_expression(&es[i]);
            proof {
                assert(all[i as int] == es[i as int]);
                assert(eval_block(pre, all, i as int) == match r {
                    Err(h) => (self@, Err(h)),
                    Ok(v) => if i + 1 == all.len() {
                        (self@, Ok(v))
                    } else {
                        eval_block(self@, all, i + 1)
                    },
                });
            }
            match r {
                Err(h) => return Err(h),
                Ok(value) => {
                    if i + 1 == es.len() {
                        return Ok(value);
                    }
                },
            }
            i = i + 1;
        }
        Ok(self.get_undefined())
    }

    /// Evaluates a program on a fresh engine, taking the results of its
    /// arithmetic operations from `arithmetic_results` in order.
    pub fn execute_source(program: &Program, arithmetic_results: Vec<u64>) -> (r: Outcome)
        ensures
            r == run_program(*program, arithmetic_results@),
    {
        let ordered = reorder_program(program);
        let mut engine = ExecutionEngine::new(arithmetic_results);
        engine.execute_program(&ordered)
    }
}

} // verus!
