use js_engine::error::EngineError;
use js_engine::execution_engine::{ArithmeticRequest, ExecutionEngine, Halt};
use js_engine::execution_scope::ExecutionScope;
use js_engine::expression::{reorder_expression, Expression, Operator, OperatorKind, Program};
use js_engine::javascript_object::{JavascriptObjectKind, JavascriptObjectRef, NAN_BITS};
use js_engine::memory::Memory;

fn num(v: f64) -> Expression {
    Expression::NumberLiteral { value: v.to_bits() }
}

fn text_number(text: &str) -> u64 {
    let t = text.trim();
    if t.is_empty() {
        return 0f64.to_bits();
    }
    match t.parse::<f64>() {
        Ok(v) => v.to_bits(),
        Err(_) => NAN_BITS,
    }
}

fn string(text: &str) -> Expression {
    Expression::StringLiteral { value: text.to_string(), number: text_number(text) }
}

fn ident(name: &str) -> Expression {
    Expression::Identifier { name: name.to_string() }
}

fn let_(name: &str, init: Expression) -> Expression {
    Expression::LetVariableDeclaration { name: name.to_string(), initializer: Box::new(init) }
}

fn bin(left: Expression, kind: OperatorKind, right: Expression) -> Expression {
    Expression::BinaryOp { left: Box::new(left), op: Operator { kind }, right: Box::new(right) }
}

fn paren(e: Expression) -> Expression {
    Expression::Parenthesized { expression: Box::new(e) }
}

fn program(expressions: Vec<Expression>) -> Program {
    Program { expressions }
}

fn compute(request: &ArithmeticRequest) -> u64 {
    let a = f64::from_bits(request.left);
    let b = f64::from_bits(request.right);
    let r = match request.op {
        OperatorKind::Plus => a + b,
        OperatorKind::Minus => a - b,
        OperatorKind::Multiply => a * b,
        OperatorKind::Divide => a / b,
        other => panic!("not an arithmetic operator: {:?}", other),
    };
    r.to_bits()
}

/// Evaluates a program, computing each arithmetic operation it asks for.
fn run(p: &Program) -> Result<JavascriptObjectRef, EngineError> {
    let mut results: Vec<u64> = Vec::new();
    loop {
        match ExecutionEngine::execute_source(p, results.clone()) {
            Ok(object) => return Ok(object),
            Err(Halt::Failed { error }) => return Err(error),
            Err(Halt::NeedsArithmetic { request }) => results.push(compute(&request)),
        }
    }
}

fn number_value(object: &JavascriptObjectRef) -> f64 {
    match object.kind {
        JavascriptObjectKind::Number { value } => f64::from_bits(value),
        ref other => panic!("not a number: {:?}", other),
    }
}

#[test]
fn undefined_lookups_share_one_identity() {
    let once = run(&program(vec![ident("undefined")])).unwrap();
    let twice = run(&program(vec![ident("undefined"), ident("undefined")])).unwrap();
    assert_eq!(once.id, 0);
    assert_eq!(twice.id, once.id);
    assert_eq!(twice.kind, JavascriptObjectKind::Undefined);
}

#[test]
fn empty_program_is_undefined() {
    let r = run(&program(vec![])).unwrap();
    assert_eq!(r.id, 0);
    assert_eq!(r.kind, JavascriptObjectKind::Undefined);
}

#[test]
fn cast_to_number_coerces() {
    let t = JavascriptObjectKind::Boolean { value: true };
    assert_eq!(f64::from_bits(t.cast_to_number()), 1.0);
    let f = JavascriptObjectKind::Boolean { value: false };
    assert_eq!(f64::from_bits(f.cast_to_number()), 0.0);
    let three = JavascriptObjectKind::String { text: "3".to_string(), number: text_number("3") };
    assert_eq!(f64::from_bits(three.cast_to_number()), 3.0);
    let abc = JavascriptObjectKind::String { text: "abc".to_string(), number: text_number("abc") };
    assert!(f64::from_bits(abc.cast_to_number()).is_nan());
    assert!(f64::from_bits(JavascriptObjectKind::Undefined.cast_to_number()).is_nan());
    let n = JavascriptObjectKind::Number { value: 2.5f64.to_bits() };
    assert_eq!(f64::from_bits(n.cast_to_number()), 2.5);
}

#[test]
fn loose_equality_yields_singletons() {
    let r = run(&program(vec![bin(num(1.0), OperatorKind::EqualsEquals, string("1"))])).unwrap();
    assert_eq!(r.id, 1);
    assert_eq!(r.kind, JavascriptObjectKind::Boolean { value: true });
    let r = run(&program(vec![bin(num(0.0), OperatorKind::EqualsEquals, ident("false"))])).unwrap();
    assert_eq!(r.id, 1);
    let r = run(&program(vec![bin(ident("undefined"), OperatorKind::EqualsEquals, ident("false"))]))
        .unwrap();
    assert_eq!(r.id, 2);
    assert_eq!(r.kind, JavascriptObjectKind::Boolean { value: false });
}

#[test]
fn loose_equality_on_values() {
    let nan = JavascriptObjectKind::Number { value: f64::NAN.to_bits() };
    assert!(!nan.is_equal_to_non_strict(&nan));
    let zero = JavascriptObjectKind::Number { value: 0f64.to_bits() };
    let minus_zero = JavascriptObjectKind::Number { value: (-0f64).to_bits() };
    assert!(zero.is_equal_to_non_strict(&minus_zero));
    let a = JavascriptObjectKind::String { text: "a".to_string(), number: NAN_BITS };
    let a2 = JavascriptObjectKind::String { text: "a".to_string(), number: NAN_BITS };
    let b = JavascriptObjectKind::String { text: "b".to_string(), number: NAN_BITS };
    assert!(a.is_equal_to_non_strict(&a2));
    assert!(!a.is_equal_to_non_strict(&b));
    let t = JavascriptObjectKind::Boolean { value: true };
    let one = JavascriptObjectKind::String { text: "1".to_string(), number: text_number("1") };
    assert!(t.is_equal_to_non_strict(&one));
    assert!(!JavascriptObjectKind::Undefined.is_equal_to_non_strict(&zero));
    assert!(JavascriptObjectKind::Undefined.is_equal_to_non_strict(&JavascriptObjectKind::Undefined));
}

#[test]
fn precedence_holds_for_either_nesting() {
    let flat = bin(bin(num(2.0), OperatorKind::Plus, num(3.0)), OperatorKind::Multiply, num(4.0));
    let nested = bin(num(2.0), OperatorKind::Plus, bin(num(3.0), OperatorKind::Multiply, num(4.0)));
    assert_eq!(number_value(&run(&program(vec![flat])).unwrap()), 14.0);
    assert_eq!(number_value(&run(&program(vec![nested])).unwrap()), 14.0);
}

#[test]
fn parentheses_keep_their_grouping() {
    let e = bin(paren(bin(num(2.0), OperatorKind::Plus, num(3.0))), OperatorKind::Multiply, num(4.0));
    assert_eq!(number_value(&run(&program(vec![e])).unwrap()), 20.0);
}

#[test]
fn reorder_regroups_chain() {
    let flat = bin(bin(num(2.0), OperatorKind::Plus, num(3.0)), OperatorKind::Multiply, num(4.0));
    let expected = bin(num(2.0), OperatorKind::Plus, bin(num(3.0), OperatorKind::Multiply, num(4.0)));
    assert_eq!(reorder_expression(&flat), expected);
    assert_eq!(reorder_expression(&expected), expected);
    let left_assoc = bin(bin(num(8.0), OperatorKind::Minus, num(2.0)), OperatorKind::Minus, num(1.0));
    assert_eq!(reorder_expression(&left_assoc), left_assoc);
    assert_eq!(number_value(&run(&program(vec![left_assoc])).unwrap()), 5.0);
}

#[test]
fn assignment_needs_existing_binding() {
    let r = run(&program(vec![bin(ident("b"), OperatorKind::Equals, num(10.0))]));
    assert_eq!(r, Err(EngineError::IdentifierNotFound { name: "b".to_string() }));
}

#[test]
fn assignment_rebinds_and_returns_value() {
    let r = run(&program(vec![
        let_("b", num(0.0)),
        bin(ident("b"), OperatorKind::Equals, num(10.0)),
    ]))
    .unwrap();
    assert_eq!(number_value(&r), 10.0);
    let assigned = r.id;
    let r = run(&program(vec![
        let_("b", num(0.0)),
        bin(ident("b"), OperatorKind::Equals, num(10.0)),
        ident("b"),
    ]))
    .unwrap();
    assert_eq!(number_value(&r), 10.0);
    assert_eq!(r.id, assigned);
}

#[test]
fn invalid_assignment_target_fails() {
    let r = run(&program(vec![bin(num(1.0), OperatorKind::Equals, num(2.0))]));
    assert_eq!(r, Err(EngineError::InvalidAssignmentTarget));
}

#[test]
fn redeclaration_fails() {
    let r = run(&program(vec![let_("x", num(1.0)), let_("x", num(2.0))]));
    assert_eq!(r, Err(EngineError::DuplicateBinding { name: "x".to_string() }));
}

#[test]
fn unknown_identifier_fails() {
    let r = run(&program(vec![ident("nope")]));
    assert_eq!(r, Err(EngineError::IdentifierNotFound { name: "nope".to_string() }));
}

#[test]
fn program_value_is_last_statement() {
    let r = run(&program(vec![
        let_("a", num(1.0)),
        let_("b", num(2.0)),
        bin(ident("a"), OperatorKind::Plus, ident("b")),
    ]))
    .unwrap();
    assert_eq!(number_value(&r), 3.0);
    let r = run(&program(vec![let_("a", string("hi"))])).unwrap();
    assert_eq!(r.kind, JavascriptObjectKind::String { text: "hi".to_string(), number: NAN_BITS });
}

#[test]
fn bindings_survive_collection() {
    let mut statements = Vec::new();
    let names = ["a", "b", "c", "d", "e", "f", "g", "h"];
    for (i, name) in names.iter().enumerate() {
        statements.push(let_(name, num(i as f64 + 1.0)));
        statements.push(bin(num(1.0), OperatorKind::Plus, num(1.0)));
    }
    statements.push(bin(ident("a"), OperatorKind::Plus, ident("h")));
    let r = run(&program(statements)).unwrap();
    assert_eq!(number_value(&r), 9.0);
}

#[test]
fn failure_stops_the_program() {
    let p = program(vec![
        let_("a", num(1.0)),
        bin(ident("a"), OperatorKind::Equals, ident("b")),
        bin(ident("a"), OperatorKind::Plus, num(1.0)),
    ]);
    let r = ExecutionEngine::execute_source(&p, Vec::new());
    assert_eq!(
        r,
        Err(Halt::Failed { error: EngineError::IdentifierNotFound { name: "b".to_string() } })
    );
}

#[test]
fn arithmetic_is_requested_with_coerced_operands() {
    let p = program(vec![bin(string("3"), OperatorKind::Multiply, ident("true"))]);
    let r = ExecutionEngine::execute_source(&p, Vec::new());
    assert_eq!(
        r,
        Err(Halt::NeedsArithmetic {
            request: ArithmeticRequest {
                op: OperatorKind::Multiply,
                left: 3f64.to_bits(),
                right: 1f64.to_bits(),
            },
        })
    );
    let r = ExecutionEngine::execute_source(&p, vec![3f64.to_bits()]).unwrap();
    assert_eq!(number_value(&r), 3.0);
    assert_eq!(r.id, 4);
}

#[test]
fn division_by_zero_is_infinite() {
    let r = run(&program(vec![bin(num(1.0), OperatorKind::Divide, num(0.0))])).unwrap();
    assert!(number_value(&r).is_infinite());
}

#[test]
fn memory_allocates_fresh_ids_and_sweeps() {
    let mut m = Memory::new();
    let a = m.allocate_number(7).unwrap();
    let b = m.allocate_boolean(true).unwrap();
    let c = m.allocate_string("s".to_string(), NAN_BITS).unwrap();
    let d = m.allocate_undefined().unwrap();
    assert_eq!((a.id, b.id, c.id, d.id), (0, 1, 2, 3));
    m.deallocate_except_ids(&vec![1, 3]);
    let ids: Vec<u64> = m.table.iter().map(|o| o.id).collect();
    assert_eq!(ids, vec![1, 3]);
    m.deallocate_except_ids(&vec![1, 3]);
    assert_eq!(m.table.len(), 2);
    assert_eq!(m.allocate_number(0).unwrap().id, 4);
}

#[test]
fn memory_refuses_when_ids_run_out() {
    let mut m = Memory { table: Vec::new(), next_id: u64::MAX };
    assert!(m.allocate_undefined().is_none());
    assert_eq!(m.table.len(), 0);
}

#[test]
fn scope_defines_gets_and_assigns() {
    let mut s = ExecutionScope::new();
    let one = JavascriptObjectRef { id: 4, kind: JavascriptObjectKind::Number { value: 1 } };
    let two = JavascriptObjectRef { id: 5, kind: JavascriptObjectKind::Number { value: 2 } };
    assert_eq!(s.define("x".to_string(), one.duplicate()), Ok(()));
    assert_eq!(
        s.define("x".to_string(), two.duplicate()),
        Err(EngineError::DuplicateBinding { name: "x".to_string() })
    );
    assert_eq!(s.get(&"x".to_string()), Some(one.duplicate()));
    assert_eq!(s.get(&"y".to_string()), None);
    s.assign(&"x".to_string(), two.duplicate());
    assert_eq!(s.get(&"x".to_string()), Some(two));
    assert_eq!(s.get_variable_ids(), vec![5]);
}
