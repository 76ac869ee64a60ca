//! Tests of the parser: literals, arrays, variables and words.

use apn::parser::{parse, ParserError};
use apn::Element;

#[test]
fn parses_true_as_boolean() {
    assert_eq!(parse("true").unwrap(), vec![Element::Boolean(true)]);
}

#[test]
fn parses_false_as_boolean() {
    assert_eq!(parse("false").unwrap(), vec![Element::Boolean(false)]);
}

#[test]
fn parses_integer_as_integer() {
    assert_eq!(parse("5").unwrap(), vec![Element::Integer(5)]);
}

#[test]
fn parses_float_as_float() {
    assert_eq!(parse("3.14").unwrap(), vec![Element::Float((3.14f64).to_bits())]);
    assert_eq!(parse("1.").unwrap(), vec![Element::Float((1.0f64).to_bits())]);
    assert_eq!(parse("1e2").unwrap(), vec![Element::Float((1e2f64).to_bits())]);
}

#[test]
fn parses_number_as_element() {
    let elements = parse("1").unwrap();
    assert_eq!(elements.len(), 1);
    assert!(matches!(elements[0], Element::Integer(1)));
}

#[test]
fn parses_multiple_numbers_as_elements() {
    let elements = parse("1 2 3").unwrap();
    assert_eq!(elements.len(), 3);
    assert!(matches!(elements[0], Element::Integer(1)));
    assert!(matches!(elements[1], Element::Integer(2)));
    assert!(matches!(elements[2], Element::Integer(3)));
}

#[test]
fn parses_arrays() {
    let elements = parse("[1 2 3]").unwrap();
    assert_eq!(elements.len(), 1);
    assert!(
        matches!(&elements[0], Element::Array(array) if array == &vec![
            Element::Integer(1),
            Element::Integer(2),
            Element::Integer(3)
        ])
    );
}

#[test]
fn parses_complex_array() {
    let elements = parse("1 [ 2 + ] 3 [ 4 [ 5 ] ]").unwrap();
    assert_eq!(elements.len(), 4);
    assert!(matches!(&elements[0], Element::Integer(1)));
    assert!(matches!(&elements[1], Element::Array(array) if array.len() == 2));
    if let Element::Array(array) = &elements[1] {
        assert!(matches!(&array[0], Element::Integer(2)));
        assert!(matches!(&array[1], Element::Function(_)));
    }
    assert!(matches!(&elements[2], Element::Integer(3)));
    assert!(matches!(&elements[3], Element::Array(array) if array.len() == 2));
    if let Element::Array(array) = &elements[3] {
        assert!(matches!(&array[0], Element::Integer(4)));
        assert!(matches!(&array[1], Element::Array(sub_array) if sub_array.len() == 1));
        if let Element::Array(sub_array) = &array[1] {
            assert!(matches!(&sub_array[0], Element::Integer(5)));
        }
    }
}

#[test]
fn parses_variables_functions_arrays() {
    let elements = parse("[1 +] $inc = 2 [$inc ] . .").unwrap();
    assert_eq!(elements.len(), 7);
    assert!(matches!(&elements[0], Element::Array(_)));
    assert!(matches!(&elements[1], Element::Variable(name) if name == "inc"));
    assert!(matches!(&elements[2], Element::Function(f) if f.name() == "="));
    assert!(matches!(&elements[3], Element::Integer(2)));
    assert!(matches!(&elements[4], Element::Array(_)));
    assert!(matches!(&elements[5], Element::Function(f) if f.name() == "."));
    assert!(matches!(&elements[6], Element::Function(f) if f.name() == "."));
}

#[test]
fn parses_string_literal_as_char_array() {
    let elements = parse("\"ab c\"").unwrap();
    assert_eq!(
        elements,
        vec![Element::Array(vec![
            Element::Char('a'),
            Element::Char('b'),
            Element::Char(' '),
            Element::Char('c'),
        ])]
    );
}

#[test]
fn parses_char_literal() {
    assert_eq!(parse("'x'").unwrap(), vec![Element::Char('x')]);
}

#[test]
fn rejects_unknown_word() {
    assert!(matches!(parse("bogus?!"), Err(ParserError::InvalidToken(t)) if t == "bogus?!"));
}

#[test]
fn rejects_unterminated_array() {
    assert!(matches!(parse("[1 2"), Err(ParserError::UnterminatedArray)));
}

#[test]
fn rejects_unmatched_closing_bracket() {
    assert!(matches!(parse("1 ]"), Err(ParserError::NotInsideArray)));
}

#[test]
fn rejects_unterminated_string() {
    assert!(matches!(parse("\"abc"), Err(ParserError::UnterminatedString)));
}

#[test]
fn rejects_overlong_char_literal() {
    assert!(matches!(parse("'ab'"), Err(ParserError::InvalidToken(t)) if t == "'ab"));
}

#[test]
fn rejects_truncated_char_literal() {
    assert!(matches!(parse("'a"), Err(ParserError::EndOfInput)));
}

#[test]
fn parses_signed_integers() {
    assert_eq!(parse("-5").unwrap(), vec![Element::Integer(-5)]);
    assert_eq!(parse("+5").unwrap(), vec![Element::Integer(5)]);
    assert_eq!(
        parse("-9223372036854775808").unwrap(),
        vec![Element::Integer(i64::MIN)]
    );
}

#[test]
fn oversized_integer_becomes_float() {
    assert_eq!(
        parse("9223372036854775808").unwrap(),
        vec![Element::Float((9223372036854775808.0f64).to_bits())]
    );
}

#[test]
fn parses_aliases_and_names_alike() {
    let a = parse("add").unwrap();
    let b = parse("+").unwrap();
    assert_eq!(a, b);
    assert!(matches!(&a[0], Element::Function(f) if f.name() == "+"));
}
