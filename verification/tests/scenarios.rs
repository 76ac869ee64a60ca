//! End-to-end scenarios: whole programs against a fresh environment.

use apn::{Element, Environment, EvaluationError};

#[test]
fn simple_scenario() {
    let mut env = Environment::new();
    let result = env.evaluate("1 2 +");
    assert!(matches!(result, Ok(())));
    assert_eq!(env.stack_len(), 1);
    assert_eq!(env.stack(), &vec![Element::Integer(3)]);
}

#[test]
fn failed_program_leaves_stack_untouched() {
    let mut env = Environment::new();
    env.evaluate("1 2 3").unwrap();
    assert!(matches!(env.evaluate("+ + +"), Err(EvaluationError::EmptyStack)));
    assert_eq!(
        env.stack(),
        &vec![Element::Integer(1), Element::Integer(2), Element::Integer(3)]
    );
}

#[test]
fn division_yields_float() {
    let mut env = Environment::new();
    env.evaluate("3 2 /").unwrap();
    assert_eq!(env.stack(), &vec![Element::Float((1.5f64).to_bits())]);
}

#[test]
fn division_by_zero_keeps_operands() {
    let mut env = Environment::new();
    env.evaluate("2 0").unwrap();
    assert!(matches!(env.evaluate("/"), Err(EvaluationError::DivisionByZero)));
    assert_eq!(env.stack(), &vec![Element::Integer(2), Element::Integer(0)]);
}

#[test]
fn conditional_selects_branch() {
    let mut env = Environment::new();
    env.evaluate("true 1 2 if").unwrap();
    assert_eq!(env.stack(), &vec![Element::Integer(1)]);
    env.evaluate("pop").unwrap();
    env.evaluate("false 1 2 if").unwrap();
    assert_eq!(env.stack(), &vec![Element::Integer(2)]);
}

#[test]
fn quoted_block_applies_to_operand() {
    let mut env = Environment::new();
    env.evaluate("[1 +] $inc = 2 $inc .").unwrap();
    assert_eq!(env.stack(), &vec![Element::Integer(3)]);
}

#[test]
fn quoted_block_splices_over_stack() {
    let mut env = Environment::new();
    env.evaluate("[1 2 +] $inc = 2 $inc .").unwrap();
    assert_eq!(env.stack(), &vec![Element::Integer(2), Element::Integer(3)]);
}

#[test]
fn splice_pushes_children_in_order() {
    let mut env = Environment::new();
    env.evaluate("[1 2 3] .").unwrap();
    assert_eq!(
        env.stack(),
        &vec![Element::Integer(1), Element::Integer(2), Element::Integer(3)]
    );
}

#[test]
fn splice_of_non_array_pushes_value() {
    let mut env = Environment::new();
    env.evaluate("7 .").unwrap();
    assert_eq!(env.stack(), &vec![Element::Integer(7)]);
}

#[test]
fn variables_resolve_through_chains() {
    let mut env = Environment::new();
    env.evaluate("5 $a = $a $b = $b .").unwrap();
    assert_eq!(env.stack(), &vec![Element::Integer(5)]);
}

#[test]
fn nested_blocks_evaluate() {
    let mut env = Environment::new();
    env.evaluate("[1 +] $inc = 2 [$inc ] . .").unwrap();
    assert_eq!(env.stack(), &vec![Element::Integer(3)]);
}

#[test]
fn runaway_program_is_cut_off_and_rolled_back() {
    let mut env = Environment::new();
    env.evaluate("42").unwrap();
    let result = env.evaluate("[copy .] copy .");
    assert!(matches!(result, Err(EvaluationError::StepLimit)));
    assert_eq!(env.stack(), &vec![Element::Integer(42)]);
}
