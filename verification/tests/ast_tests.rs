use std::rc::Rc;

use saba_core::ast::{JsParser, Node, ParseError, Program};
use saba_core::token::JsLexer;

#[test]
fn test_empty() {
    let js = "".to_string();
    let lexer = JsLexer::new(js);
    let mut parser = JsParser::new(lexer);
    let expected = Program::new();
    assert_eq!(expected, parser.parse_ast().unwrap());
}

#[test]
fn ast_test_num() {
    let js = "42".to_string();
    let lexer = JsLexer::new(js);
    let mut parser = JsParser::new(lexer);
    let mut expected = Program::new();
    let mut body = Vec::new();
    body.push(Rc::new(Node::ExpressionStatement(Some(Rc::new(Node::NumericLiteral(42))))));
    expected.set_body(body);
    assert_eq!(expected, parser.parse_ast().unwrap());
}

#[test]
fn ast_test_add_nums() {
    let js = "1 + 2".to_string();
    let lexer = JsLexer::new(js);
    let mut parser = JsParser::new(lexer);
    let mut expected = Program::new();
    let mut body = Vec::new();
    body.push(Rc::new(Node::ExpressionStatement(Some(Rc::new(Node::AdditiveExpression {
        operator: '+',
        left: Some(Rc::new(Node::NumericLiteral(1))),
        right: Some(Rc::new(Node::NumericLiteral(2))),
    })))));
    expected.set_body(body);
    assert_eq!(expected, parser.parse_ast().unwrap());
}

#[test]
fn test_assign_variable() {
    let js = "var foo=\"bar\"".to_string();
    let lexer = JsLexer::new(js);
    let mut parser = JsParser::new(lexer);
    let mut expected = Program::new();
    let mut body = Vec::new();
    body.push(Rc::new(Node::VariableDeclaration {
        declarations: [Some(Rc::new(Node::VariableDeclarator {
            id: Some(Rc::new(Node::Identifier("foo".to_string()))),
            init: Some(Rc::new(Node::StringLiteral("bar".to_string()))),
        }))]
        .to_vec(),
    }));
    expected.set_body(body);
    assert_eq!(expected, parser.parse_ast().unwrap());
}

#[test]
fn test_add_variable_and_num() {
    let js = "var foo=42; var result=foo+1;".to_string();
    let lexer = JsLexer::new(js);
    let mut parser = JsParser::new(lexer);
    let mut expected = Program::new();
    let mut body = Vec::new();
    body.push(Rc::new(Node::VariableDeclaration {
        declarations: [Some(Rc::new(Node::VariableDeclarator {
            id: Some(Rc::new(Node::Identifier("foo".to_string()))),
            init: Some(Rc::new(Node::NumericLiteral(42))),
        }))]
        .to_vec(),
    }));
    body.push(Rc::new(Node::VariableDeclaration {
        declarations: [Some(Rc::new(Node::VariableDeclarator {
            id: Some(Rc::new(Node::Identifier("result".to_string()))),
            init: Some(Rc::new(Node::AdditiveExpression {
                operator: '+',
                left: Some(Rc::new(Node::Identifier("foo".to_string()))),
                right: Some(Rc::new(Node::NumericLiteral(1))),
            })),
        }))]
        .to_vec(),
    }));
    expected.set_body(body);
    assert_eq!(expected, parser.parse_ast().unwrap());
}

#[test]
fn reparse_same_source_is_structurally_equal() {
    let js = "var foo=42; var result=foo+1; result + 3";
    let mut parser1 = JsParser::new(JsLexer::new(js.to_string()));
    let mut parser2 = JsParser::new(JsLexer::new(js.to_string()));
    assert_eq!(parser1.parse_ast().unwrap(), parser2.parse_ast().unwrap());
}

#[test]
fn declaration_without_initialiser_parses() {
    let js = "var foo;".to_string();
    let mut parser = JsParser::new(JsLexer::new(js));
    let mut expected = Program::new();
    let mut body = Vec::new();
    body.push(Rc::new(Node::VariableDeclaration {
        declarations: [Some(Rc::new(Node::VariableDeclarator {
            id: Some(Rc::new(Node::Identifier("foo".to_string()))),
            init: None,
        }))]
        .to_vec(),
    }));
    expected.set_body(body);
    assert_eq!(expected, parser.parse_ast().unwrap());
}

#[test]
fn assignment_expression_parses() {
    let js = "foo=1".to_string();
    let mut parser = JsParser::new(JsLexer::new(js));
    let mut expected = Program::new();
    let mut body = Vec::new();
    body.push(Rc::new(Node::ExpressionStatement(Some(Rc::new(Node::AssignmentExpression {
        operator: '=',
        left: Some(Rc::new(Node::Identifier("foo".to_string()))),
        right: Some(Rc::new(Node::NumericLiteral(1))),
    })))));
    expected.set_body(body);
    assert_eq!(expected, parser.parse_ast().unwrap());
}

#[test]
fn chained_addition_is_right_associative() {
    let js = "1+2+3".to_string();
    let mut parser = JsParser::new(JsLexer::new(js));
    let mut expected = Program::new();
    let mut body = Vec::new();
    body.push(Rc::new(Node::ExpressionStatement(Some(Rc::new(Node::AdditiveExpression {
        operator: '+',
        left: Some(Rc::new(Node::NumericLiteral(1))),
        right: Some(Rc::new(Node::AdditiveExpression {
            operator: '+',
            left: Some(Rc::new(Node::NumericLiteral(2))),
            right: Some(Rc::new(Node::NumericLiteral(3))),
        })),
    })))));
    expected.set_body(body);
    assert_eq!(expected, parser.parse_ast().unwrap());
}

#[test]
fn end_of_input_mid_expression_is_an_error() {
    let js = "1 +".to_string();
    let mut parser = JsParser::new(JsLexer::new(js));
    assert_eq!(Err(ParseError::UnexpectedEndOfInput), parser.parse_ast());
}

#[test]
fn var_without_identifier_is_an_error() {
    let js = "var 5".to_string();
    let mut parser = JsParser::new(JsLexer::new(js));
    assert_eq!(Err(ParseError::UnexpectedToken), parser.parse_ast());
}

#[test]
fn var_at_end_of_input_is_an_error() {
    let js = "var".to_string();
    let mut parser = JsParser::new(JsLexer::new(js));
    assert_eq!(Err(ParseError::UnexpectedEndOfInput), parser.parse_ast());
}

#[test]
fn stray_punctuator_is_an_error() {
    let js = "; 1".to_string();
    let mut parser = JsParser::new(JsLexer::new(js));
    assert_eq!(Err(ParseError::UnexpectedToken), parser.parse_ast());
}
