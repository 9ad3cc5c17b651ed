use std::rc::Rc;

use saba_core::ast::{JsParser, Node};
use saba_core::runtime::{JsRuntime, RuntimeError, RuntimeValue};
use saba_core::token::JsLexer;

#[test]
fn runtime_test_num() {
    let js = "42".to_string();
    let lexer = JsLexer::new(js);
    let mut parser = JsParser::new(lexer);
    let ast = parser.parse_ast().unwrap();
    let mut runtime = JsRuntime::new();
    let expected = [Some(RuntimeValue::Number(42))];
    let mut i = 0;

    for node in ast.body() {
        let result = runtime.eval(&Some(node.clone()));
        assert_eq!(expected[i], result.unwrap());
        i += 1;
    }
}

#[test]
fn runtime_test_add_nums() {
    let js = "1 + 2".to_string();
    let lexer = JsLexer::new(js);
    let mut parser = JsParser::new(lexer);
    let ast = parser.parse_ast().unwrap();
    let mut runtime = JsRuntime::new();
    let expected = [Some(RuntimeValue::Number(3))];
    let mut i = 0;

    for node in ast.body() {
        let result = runtime.eval(&Some(node.clone()));
        assert_eq!(expected[i], result.unwrap());
        i += 1;
    }
}

#[test]
fn test_sub_nums() {
    let js = "2 - 1".to_string();
    let lexer = JsLexer::new(js);
    let mut parser = JsParser::new(lexer);
    let ast = parser.parse_ast().unwrap();
    let mut runtime = JsRuntime::new();
    let expected = [Some(RuntimeValue::Number(1))];
    let mut i = 0;

    for node in ast.body() {
        let result = runtime.eval(&Some(node.clone()));
        assert_eq!(expected[i], result.unwrap());
        i += 1;
    }
}

fn run(js: &str) -> Result<Vec<Option<RuntimeValue>>, RuntimeError> {
    let mut parser = JsParser::new(JsLexer::new(js.to_string()));
    let program = parser.parse_ast().unwrap();
    let mut runtime = JsRuntime::new();
    runtime.execute(&program)
}

#[test]
fn execute_collects_statement_values_in_order() {
    let values = run("1+2; 5-3; 42").unwrap();
    assert_eq!(
        vec![
            Some(RuntimeValue::Number(3)),
            Some(RuntimeValue::Number(2)),
            Some(RuntimeValue::Number(42)),
        ],
        values
    );
}

#[test]
fn declarations_bind_and_yield_no_value() {
    let values = run("var foo=42; var result=foo+1; result").unwrap();
    assert_eq!(vec![None, None, Some(RuntimeValue::Number(43))], values);
}

#[test]
fn assignment_updates_binding_and_yields_value() {
    let values = run("var foo=1; foo=2; foo").unwrap();
    assert_eq!(vec![None, Some(RuntimeValue::Number(2)), Some(RuntimeValue::Number(2))], values);
}

#[test]
fn string_declaration_binds_str_value() {
    let values = run("var foo=\"bar\"; foo").unwrap();
    assert_eq!(vec![None, Some(RuntimeValue::Str("bar".to_string()))], values);
}

#[test]
fn declaration_without_initialiser_binds_undefined() {
    let values = run("var foo; foo").unwrap();
    assert_eq!(vec![None, Some(RuntimeValue::Undefined)], values);
}

#[test]
fn unbound_identifier_is_a_typed_error() {
    assert_eq!(Err(RuntimeError::UnboundIdentifier), run("foo"));
}

#[test]
fn assignment_to_non_identifier_is_a_typed_error() {
    assert_eq!(Err(RuntimeError::UnsupportedConstruct), run("1 = 2"));
}

#[test]
fn member_expression_is_a_typed_error() {
    let node = Node::new_member_expression(
        Some(Rc::new(Node::Identifier("a".to_string()))),
        Some(Rc::new(Node::Identifier("b".to_string()))),
    );
    let mut runtime = JsRuntime::new();
    assert_eq!(Err(RuntimeError::UnsupportedConstruct), runtime.eval(&node));
}

#[test]
fn addition_overflow_is_a_typed_error() {
    assert_eq!(Err(RuntimeError::NumericOverflow), run("18446744073709551615 + 1"));
}

#[test]
fn subtraction_underflow_is_a_typed_error() {
    assert_eq!(Err(RuntimeError::NumericOverflow), run("1 - 2"));
}

#[test]
fn addition_at_the_range_edge_succeeds() {
    let values = run("18446744073709551614 + 1").unwrap();
    assert_eq!(vec![Some(RuntimeValue::Number(u64::MAX))], values);
}

#[test]
fn mixed_kind_addition_is_a_type_mismatch() {
    assert_eq!(Err(RuntimeError::TypeMismatch), run("\"x\" + 1"));
}

#[test]
fn string_addition_is_a_type_mismatch() {
    assert_eq!(Err(RuntimeError::TypeMismatch), run("\"a\" + \"b\""));
}

#[test]
fn failure_aborts_the_rest_of_the_program() {
    assert_eq!(Err(RuntimeError::UnboundIdentifier), run("missing; var foo=1"));
}

#[test]
fn evaluating_nothing_yields_nothing() {
    let mut runtime = JsRuntime::new();
    assert_eq!(Ok(None), runtime.eval(&None));
}

#[test]
fn missing_operand_propagates_as_nothing() {
    let node = Node::new_additive_expression('+', None, Some(Rc::new(Node::NumericLiteral(1))));
    let mut runtime = JsRuntime::new();
    assert_eq!(Ok(None), runtime.eval(&node));
}

#[test]
fn environment_rebinding_keeps_one_binding_per_name() {
    let values = run("var foo=1; var foo=2; foo").unwrap();
    assert_eq!(vec![None, None, Some(RuntimeValue::Number(2))], values);
}
