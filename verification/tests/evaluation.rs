//! Tests of the evaluator: the built-in catalog, variables, and the
//! all-or-nothing behavior of `evaluate`.

use apn::{Element, Environment, EvaluationError, FileSource};

#[test]
fn evaluates_a_simple_function() {
    let mut env = Environment::new();
    let result = env.evaluate("1 2 add");
    assert!(matches!(result, Ok(())));
    assert_eq!(env.stack_len(), 1);
    assert!(matches!(env.stack()[0], Element::Integer(3)));
}

#[test]
fn an_error_during_evaluation_does_not_change_stack() {
    let mut env = Environment::new();
    assert!(matches!(env.evaluate("1 2 3"), Ok(())));
    assert!(matches!(env.evaluate("+ + +"), Err(EvaluationError::EmptyStack)));
    assert_eq!(
        env.stack(),
        &vec![Element::Integer(1), Element::Integer(2), Element::Integer(3)]
    );
}

#[test]
fn stores_array_as_variable() {
    let mut env = Environment::new();
    let result = env.evaluate("[1 2 +] $test =");
    assert!(matches!(result, Ok(())));
    assert_eq!(env.stack_len(), 0);
    env.evaluate("$test").unwrap();
    let value = env.pop_value();
    assert!(matches!(value, Ok(Element::Array(_))));
    if let Ok(Element::Array(array)) = value {
        assert!(matches!(&array[0], Element::Integer(1)));
        assert!(matches!(&array[1], Element::Integer(2)));
        assert!(matches!(&array[2], Element::Function(_)));
    }
}

#[test]
fn adds_2_integers_into_integer() {
    let mut env = Environment::new();
    env.push(Element::Integer(1)).unwrap();
    env.push(Element::Integer(2)).unwrap();
    let result = env.evaluate("add");
    assert!(matches!(result, Ok(())));
    assert_eq!(env.stack_len(), 1);
    assert_eq!(env.pop(), Ok(Element::Integer(3)));
}

#[test]
fn adds_2_floats_into_float() {
    let mut env = Environment::new();
    env.push(Element::Float((1.1f64).to_bits())).unwrap();
    env.push(Element::Float((2.4f64).to_bits())).unwrap();
    let result = env.evaluate("add");
    assert!(matches!(result, Ok(())));
    assert_eq!(env.stack_len(), 1);
    assert_eq!(env.pop(), Ok(Element::Float((3.5f64).to_bits())));
}

#[test]
fn appends_value_after_array() {
    let mut env = Environment::new();
    assert!(matches!(env.evaluate("[1 2] 3 append"), Ok(())));
    if let Ok(Element::Array(array)) = env.pop() {
        assert_eq!(array.len(), 3);
        assert!(matches!(array[0], Element::Integer(1)));
        assert!(matches!(array[1], Element::Integer(2)));
        assert!(matches!(array[2], Element::Integer(3)));
    } else {
        panic!("expected an array");
    }
    assert!(matches!(env.pop(), Err(EvaluationError::EmptyStack)));
}

#[test]
fn concatenates_two_arrays() {
    let mut env = Environment::new();
    assert!(matches!(env.evaluate("[1 2] [3 4] ++"), Ok(())));
    assert_eq!(
        env.pop(),
        Ok(Element::Array(vec![
            Element::Integer(1),
            Element::Integer(2),
            Element::Integer(3),
            Element::Integer(4),
        ]))
    );
}

#[test]
fn assigns_variable_to_value() {
    let mut env = Environment::new();
    let result = env.evaluate("1 $test assign");
    assert!(matches!(result, Ok(())));
    assert_eq!(env.stack_len(), 0);
    env.evaluate("$test").unwrap();
    assert!(matches!(env.pop_value(), Ok(Element::Integer(1))));
}

#[test]
fn overrides_variables_value() {
    let mut env = Environment::new();
    let result = env.evaluate("1 $test = 3. $test =");
    assert!(matches!(result, Ok(())));
    assert_eq!(env.stack_len(), 0);
    env.evaluate("$test").unwrap();
    assert_eq!(env.pop_value(), Ok(Element::Float((3.0f64).to_bits())));
}

#[test]
fn assigns_as_reference_to_other_variable() {
    let mut env = Environment::new();
    let result = env.evaluate("1 $test1 = $test1 $test2 =");
    assert!(matches!(result, Ok(())));
    env.evaluate("$test2").unwrap();
    assert!(matches!(env.pop_value(), Ok(Element::Integer(1))));
    env.evaluate("2 $test1 = $test2").unwrap();
    assert!(matches!(env.pop_value(), Ok(Element::Integer(2))));
}

#[test]
fn clears_stack() {
    let mut env = Environment::new();
    assert!(matches!(env.evaluate("1 2"), Ok(())));
    assert!(matches!(env.evaluate("clear"), Ok(())));
    assert_eq!(env.stack_len(), 0);
}

#[test]
fn compares_numbers() {
    let mut env = Environment::new();
    let result = env.evaluate("1 2 < 3 2 <= 4 4 == 5 6 > 7 6 >=");
    assert!(matches!(result, Ok(())));
    let results: Vec<bool> = env
        .stack()
        .iter()
        .filter_map(|e| if let Element::Boolean(b) = e { Some(*b) } else { None })
        .collect();
    assert_eq!(results, vec![true, false, true, false, true]);
}

#[test]
fn keeps_first_element_if_true() {
    let mut env = Environment::new();
    let result = env.evaluate("true 1 2 if");
    assert!(matches!(result, Ok(())));
    assert_eq!(env.stack_len(), 1);
    assert!(matches!(env.pop(), Ok(Element::Integer(1))));
}

#[test]
fn keeps_second_element_if_false() {
    let mut env = Environment::new();
    let result = env.evaluate("false 1 2 if");
    assert!(matches!(result, Ok(())));
    assert_eq!(env.stack_len(), 1);
    assert!(matches!(env.pop(), Ok(Element::Integer(2))));
}

#[test]
fn copies_top_element() {
    let mut env = Environment::new();
    assert!(matches!(env.evaluate("1 copy"), Ok(())));
    assert!(matches!(env.pop(), Ok(Element::Integer(1))));
    assert!(matches!(env.pop(), Ok(Element::Integer(1))));
    assert!(matches!(env.pop(), Err(EvaluationError::EmptyStack)));
}

#[test]
fn copies_without_evaluating() {
    let mut env = Environment::new();
    assert!(matches!(env.evaluate("$a copy"), Ok(())));
    assert!(matches!(env.pop(), Ok(Element::Variable(name)) if name == "a"));
    assert!(matches!(env.pop(), Ok(Element::Variable(name)) if name == "a"));
    assert!(matches!(env.pop(), Err(EvaluationError::EmptyStack)));
}

#[test]
fn always_divides_as_float() {
    let mut env = Environment::new();
    assert!(matches!(env.evaluate("3 2 /"), Ok(())));
    assert_eq!(env.stack_len(), 1);
    assert_eq!(env.pop_value(), Ok(Element::Float((1.5f64).to_bits())));
}

#[test]
fn errs_if_dividing_by_zero() {
    let mut env = Environment::new();
    assert!(matches!(env.evaluate("2 0"), Ok(())));
    assert!(matches!(env.evaluate("/"), Err(EvaluationError::DivisionByZero)));
    assert_eq!(env.stack_len(), 2);
}

#[test]
fn errs_if_dividing_by_float_zero() {
    let mut env = Environment::new();
    assert!(matches!(env.evaluate("2 0.0 /"), Err(EvaluationError::DivisionByZero)));
    assert!(matches!(env.evaluate("2 -0.0 /"), Err(EvaluationError::DivisionByZero)));
    assert!(matches!(env.evaluate("4.0 0 %"), Err(EvaluationError::DivisionByZero)));
    assert_eq!(env.stack_len(), 0);
}

#[test]
fn evaluates_simple_element_as_itself() {
    let mut env = Environment::new();
    assert!(matches!(env.evaluate("1 eval"), Ok(())));
    assert!(matches!(env.pop(), Ok(Element::Integer(1))));
    assert!(matches!(env.pop(), Err(EvaluationError::EmptyStack)));
}

#[test]
fn evaluates_variable_as_value() {
    let mut env = Environment::new();
    assert!(matches!(env.evaluate("1 $x = $x eval"), Ok(())));
    assert!(matches!(env.pop(), Ok(Element::Integer(1))));
    assert!(matches!(env.pop(), Err(EvaluationError::EmptyStack)));
}

#[test]
fn makes_an_array_from_multiple_elements() {
    let mut env = Environment::new();
    assert!(matches!(env.evaluate("10 20 30 40 50 3 make_array"), Ok(())));
    if let Ok(Element::Array(array)) = env.pop() {
        assert_eq!(array.len(), 3);
        assert!(matches!(array[0], Element::Integer(30)));
        assert!(matches!(array[1], Element::Integer(40)));
        assert!(matches!(array[2], Element::Integer(50)));
    } else {
        panic!("expected an array");
    }
    assert!(matches!(env.pop(), Ok(Element::Integer(20))));
    assert!(matches!(env.pop(), Ok(Element::Integer(10))));
    assert!(matches!(env.pop(), Err(EvaluationError::EmptyStack)));
}

#[test]
fn errors_on_negative_integer() {
    let mut env = Environment::new();
    env.evaluate("10 20").unwrap();
    assert!(matches!(
        env.evaluate("-1 make_array"),
        Err(EvaluationError::InvalidStackElements)
    ));
    assert!(matches!(
        env.evaluate("0 make_array"),
        Err(EvaluationError::InvalidStackElements)
    ));
}

#[test]
fn returns_remainder_of_2_integers() {
    let mut env = Environment::new();
    assert!(matches!(env.evaluate("4 3 %"), Ok(())));
    assert!(matches!(env.pop(), Ok(Element::Integer(1))));
    assert!(matches!(env.pop(), Err(EvaluationError::EmptyStack)));
}

#[test]
fn cannot_modulo_with_zero() {
    let mut env = Environment::new();
    assert!(matches!(env.evaluate("4 0 %"), Err(EvaluationError::DivisionByZero)));
}

#[test]
fn takes_float_remainders() {
    let mut env = Environment::new();
    assert!(matches!(env.evaluate("5.5 2 %"), Ok(())));
    assert_eq!(env.pop(), Ok(Element::Float((1.5f64).to_bits())));
    assert!(matches!(env.evaluate("-7 2.5 %"), Ok(())));
    assert_eq!(env.pop(), Ok(Element::Float((-2.0f64).to_bits())));
}

#[test]
fn multiplies_last_2_numbers() {
    let mut env = Environment::new();
    env.push(Element::Integer(2)).unwrap();
    env.push(Element::Float((3.5f64).to_bits())).unwrap();
    let result = env.evaluate("*");
    assert!(matches!(result, Ok(())));
    assert_eq!(env.stack_len(), 1);
    assert_eq!(env.pop(), Ok(Element::Float((7.0f64).to_bits())));
}

#[test]
fn subtracts_2_integers_into_integer() {
    let mut environment = Environment::new();
    environment.push(Element::Integer(2)).unwrap();
    environment.push(Element::Integer(3)).unwrap();
    let result = environment.evaluate("-");
    assert!(matches!(result, Ok(())));
    assert_eq!(environment.stack_len(), 1);
    assert!(matches!(environment.pop_value(), Ok(Element::Integer(-1))));
}

#[test]
fn subtracts_floats_exactly() {
    let mut env = Environment::new();
    assert!(matches!(env.evaluate("5.5 2.25 -"), Ok(())));
    assert_eq!(env.pop(), Ok(Element::Float((3.25f64).to_bits())));
}

#[test]
fn removes_an_item_from_stack() {
    let mut env = Environment::new();
    env.push(Element::Integer(1)).unwrap();
    let result = env.evaluate("pop");
    assert!(matches!(result, Ok(())));
    assert_eq!(env.stack_len(), 0);
}

#[test]
fn rotates_top_two_elements_of_stack() {
    let mut env = Environment::new();
    assert!(matches!(env.evaluate("1 2 rotate"), Ok(())));
    assert!(matches!(env.pop(), Ok(Element::Integer(1))));
    assert!(matches!(env.pop(), Ok(Element::Integer(2))));
    assert!(matches!(env.pop(), Err(EvaluationError::EmptyStack)));
}

#[test]
fn rotates_top_two_elements_without_evaluating_them() {
    let mut env = Environment::new();
    assert!(matches!(env.evaluate("$a [2] rotate"), Ok(())));
    assert!(matches!(env.pop(), Ok(Element::Variable(_))));
    assert!(matches!(env.pop(), Ok(Element::Array(_))));
    assert!(matches!(env.pop(), Err(EvaluationError::EmptyStack)));
}

#[test]
fn repeats_previous_element_n_times() {
    let mut env = Environment::new();
    let result = env.evaluate("1 5 repeat");
    assert!(matches!(result, Ok(())));
    assert_eq!(env.stack_len(), 5);
    for _ in 0..5 {
        assert!(matches!(env.pop(), Ok(Element::Integer(1))));
    }
}

#[test]
fn repeats_and_evaluates_n_times() {
    let mut env = Environment::new();
    assert!(matches!(env.evaluate("1 2 3 4 5 [+] 4 repeat_eval"), Ok(())));
    assert!(matches!(env.pop(), Ok(Element::Integer(15))));
    assert!(matches!(env.pop(), Err(EvaluationError::EmptyStack)));
}

struct Programs;

impl FileSource for Programs {
    fn read_file(&mut self, name: &Vec<char>) -> Result<String, String> {
        let name: String = name.iter().collect();
        if name == "../programs/inc.apn" {
            Ok("[1 +] $inc =".to_string())
        } else {
            Err(format!("no such file: {}", name))
        }
    }
}

#[test]
fn reads_file_and_evaluates_it() {
    let mut env = Environment::new();
    let mut files = Programs;
    assert!(matches!(
        env.evaluate_with_files("\"../programs/inc.apn\" read", &mut files),
        Ok(())
    ));
    assert!(matches!(env.evaluate("2 $inc ."), Ok(())));
    assert!(matches!(env.pop(), Ok(Element::Integer(3))));
    assert!(matches!(env.pop(), Err(EvaluationError::EmptyStack)));
}

#[test]
fn read_reports_a_missing_file() {
    let mut env = Environment::new();
    let mut files = Programs;
    env.push(Element::Integer(7)).unwrap();
    let result = env.evaluate_with_files("\"nowhere.apn\" read", &mut files);
    assert!(matches!(result, Err(EvaluationError::IO(_))));
    assert_eq!(env.stack(), &vec![Element::Integer(7)]);
}

#[test]
fn read_without_a_collaborator_is_an_io_error() {
    let mut env = Environment::new();
    assert!(matches!(env.evaluate("\"x\" read"), Err(EvaluationError::IO(_))));
    assert_eq!(env.stack_len(), 0);
}

#[test]
fn read_requires_a_string() {
    let mut env = Environment::new();
    assert!(matches!(env.evaluate("1 read"), Err(EvaluationError::NotAString)));
}

#[test]
fn undefined_variable_is_reported() {
    let mut env = Environment::new();
    let result = env.evaluate("$nope 1 +");
    assert!(matches!(result, Err(EvaluationError::UndefinedVariable(n)) if n == "nope"));
}

#[test]
fn circular_reference_is_reported() {
    let mut env = Environment::new();
    assert!(matches!(env.evaluate("$a $a ="), Ok(())));
    assert!(matches!(
        env.evaluate("$a ."),
        Err(EvaluationError::CircularVariableReference)
    ));
}

#[test]
fn non_numeric_arithmetic_is_not_applicable() {
    let mut env = Environment::new();
    assert!(matches!(
        env.evaluate("true 1 +"),
        Err(EvaluationError::FunctionNotApplicable)
    ));
    assert!(matches!(
        env.evaluate("'a' 'b' <"),
        Err(EvaluationError::FunctionNotApplicable)
    ));
}

#[test]
fn assignment_needs_a_variable() {
    let mut env = Environment::new();
    assert!(matches!(
        env.evaluate("1 2 ="),
        Err(EvaluationError::InvalidStackElements)
    ));
}

#[test]
fn condition_must_be_boolean() {
    let mut env = Environment::new();
    assert!(matches!(
        env.evaluate("7 1 2 if"),
        Err(EvaluationError::InvalidStackElements)
    ));
}

#[test]
fn integer_addition_wraps_on_overflow() {
    let mut env = Environment::new();
    assert!(matches!(env.evaluate("9223372036854775807 1 +"), Ok(())));
    assert_eq!(env.pop(), Ok(Element::Integer(i64::MIN)));
}

#[test]
fn float_equality_is_ieee() {
    let mut env = Environment::new();
    assert!(matches!(env.evaluate("2.5 2.5 =="), Ok(())));
    assert_eq!(env.pop(), Ok(Element::Boolean(true)));
    assert!(matches!(env.evaluate("0.1 0.2 + 0.3 =="), Ok(())));
    assert_eq!(env.pop(), Ok(Element::Boolean(false)));
}

#[test]
fn mixed_comparison_promotes() {
    let mut env = Environment::new();
    assert!(matches!(env.evaluate("1 2.5 <"), Ok(())));
    assert_eq!(env.pop(), Ok(Element::Boolean(true)));
    assert!(matches!(env.evaluate("2.5 1 >"), Ok(())));
    assert_eq!(env.pop(), Ok(Element::Boolean(true)));
}

#[test]
fn mixed_addition_promotes_to_float() {
    let mut env = Environment::new();
    assert!(matches!(env.evaluate("1 2.5 +"), Ok(())));
    assert_eq!(env.pop(), Ok(Element::Float((3.5f64).to_bits())));
}
