use openscad::ast::parser::{ParseError, Parser};
use openscad::ast::{AstNode, Condition, Expr};
use openscad::lexer::{Decimal, LexType, TokType};

fn parse_source(src: &str) -> Result<Expr, ParseError> {
    let tokens = TokType::lex(src).unwrap();
    Parser::new(tokens).parse_all()
}

fn name(s: &str) -> Box<Expr> {
    Box::new(Expr::new(AstNode::SConstant(s.to_string())))
}

fn int_node(v: i64) -> Expr {
    Expr::new(AstNode::IConstant(v))
}

#[test]
fn parse_call_without_eof() {
    let mut tokens = TokType::lex("Lex(20);").unwrap();
    tokens.pop();
    let ast = Parser::new(tokens).parse_all().unwrap();
    let expected = Expr::new(AstNode::Block(vec![Expr::new(AstNode::FunctionCall(
        name("Lex"),
        vec![int_node(20)],
    ))]));
    assert_eq!(ast, expected);
}

#[test]
fn parse_calls_with_eof() {
    let ast = parse_source("cube(1, 2.5);\nsphere(r=3, 4, d=0.25);").unwrap();
    let expected = Expr::new(AstNode::Block(vec![
        Expr::new(AstNode::FunctionCall(
            name("cube"),
            vec![
                int_node(1),
                Expr::new(AstNode::FConstant(Decimal { whole: 2, fraction: vec![5] })),
            ],
        )),
        Expr::new(AstNode::FunctionCall(
            name("sphere"),
            vec![
                Expr::new(AstNode::Override(name("r"), Box::new(int_node(3)))),
                int_node(4),
                Expr::new(AstNode::Override(
                    name("d"),
                    Box::new(Expr::new(AstNode::FConstant(Decimal {
                        whole: 0,
                        fraction: vec![2, 5],
                    }))),
                )),
            ],
        )),
    ]));
    assert_eq!(ast, expected);
}

#[test]
fn empty_call_and_empty_source() {
    let ast = parse_source("f();").unwrap();
    assert_eq!(
        ast,
        Expr::new(AstNode::Block(vec![Expr::new(AstNode::FunctionCall(name("f"), vec![]))]))
    );
    let ast = parse_source("").unwrap();
    assert_eq!(ast, Expr::new(AstNode::Block(vec![])));
}

#[test]
fn missing_semicolon() {
    match parse_source("Lex(20)") {
        Err(ParseError::Expected(set, tok, label)) => {
            assert_eq!(set, vec![TokType::Semicolon]);
            assert_eq!(tok, LexType::new(TokType::EOF, 1, 8));
            assert_eq!(label, "function call");
        }
        other => panic!("unexpected result: {:?}", other),
    }
}

#[test]
fn cursor_past_end() {
    let mut parser = Parser::new(TokType::lex("Lex(20);").unwrap());
    assert!(parser.parse_all().is_ok());
    assert!(matches!(parser.parse_all(), Err(ParseError::AbruptEnd)));
    let mut empty = Parser::new(vec![]);
    assert!(matches!(empty.parse_all(), Err(ParseError::AbruptEnd)));
}

#[test]
fn call_needs_parenthesis() {
    match parse_source("Lex 20;") {
        Err(ParseError::Expected(set, tok, label)) => {
            assert_eq!(set, vec![TokType::LParen]);
            assert_eq!(tok, LexType::new(TokType::IConstant(20), 1, 5));
            assert_eq!(label, "function call");
        }
        other => panic!("unexpected result: {:?}", other),
    }
}

#[test]
fn keyword_statement() {
    match parse_source("module m() {}") {
        Err(ParseError::UnexpectedKeyword(tok)) => {
            assert_eq!(tok, LexType::new(TokType::Module, 1, 1));
        }
        other => panic!("unexpected result: {:?}", other),
    }
}

#[test]
fn other_statement_start() {
    match parse_source("20;") {
        Err(ParseError::Expected(set, tok, label)) => {
            assert_eq!(set, vec![TokType::IDENTIFIER(String::new())]);
            assert_eq!(tok.token, TokType::IConstant(20));
            assert_eq!(label, "statement");
        }
        other => panic!("unexpected result: {:?}", other),
    }
}

#[test]
fn override_needs_assign() {
    match parse_source("f(a 1);") {
        Err(ParseError::Expected(set, tok, label)) => {
            assert_eq!(set, vec![TokType::Assign]);
            assert_eq!(tok, LexType::new(TokType::IConstant(1), 1, 5));
            assert_eq!(label, "override");
        }
        other => panic!("unexpected result: {:?}", other),
    }
}

#[test]
fn override_needs_constant() {
    match parse_source("sphere(d=size);") {
        Err(ParseError::Expected(set, tok, label)) => {
            assert_eq!(
                set,
                vec![
                    TokType::IConstant(0),
                    TokType::FConstant(Decimal { whole: 0, fraction: vec![] }),
                    TokType::IDENTIFIER(String::new()),
                ]
            );
            assert_eq!(tok, LexType::new(TokType::IDENTIFIER("size".to_string()), 1, 10));
            assert_eq!(label, "override");
        }
        other => panic!("unexpected result: {:?}", other),
    }
}

#[test]
fn bad_argument() {
    match parse_source("f(1; 2);") {
        Err(ParseError::Expected(set, tok, label)) => {
            assert_eq!(set.len(), 5);
            assert_eq!(set[3], TokType::Comma);
            assert_eq!(set[4], TokType::RParen);
            assert_eq!(tok, LexType::new(TokType::Semicolon, 1, 4));
            assert_eq!(label, "function call");
        }
        other => panic!("unexpected result: {:?}", other),
    }
}

#[test]
fn tokens_run_out() {
    let mut tokens = TokType::lex("f(1, x=").unwrap();
    tokens.pop();
    assert!(matches!(Parser::new(tokens).parse_all(), Err(ParseError::AbruptEnd)));
    let mut tokens = TokType::lex("f(1)").unwrap();
    tokens.pop();
    assert!(matches!(Parser::new(tokens).parse_all(), Err(ParseError::AbruptEnd)));
}

#[test]
fn tokens_after_eof() {
    let mut tokens = TokType::lex("f();").unwrap();
    tokens.push(LexType::new(TokType::IDENTIFIER("g".to_string()), 2, 1));
    assert!(matches!(Parser::new(tokens).parse_all(), Err(ParseError::AbruptEnd)));
}

#[test]
fn parse_one_statement() {
    let mut parser = Parser::new(TokType::lex("a(1); b(2);").unwrap());
    let first = parser.parse().unwrap();
    assert_eq!(first, Expr::new(AstNode::FunctionCall(name("a"), vec![int_node(1)])));
    let second = parser.parse().unwrap();
    assert_eq!(second, Expr::new(AstNode::FunctionCall(name("b"), vec![int_node(2)])));
    assert!(matches!(parser.parse(), Err(ParseError::AbruptEnd)));
}

#[test]
fn condition_on_lhs() {
    let c = Condition::new_lhs(AstNode::IConstant(3));
    assert_eq!(c.lhs, AstNode::IConstant(3));
    assert_eq!(c.rhs, AstNode::True);
    assert_eq!(c.op, AstNode::EqOp);
    assert_eq!(Expr::new(AstNode::OrOp).def, AstNode::OrOp);
}
