use shapelang::ast::{BinOp, Decl, Expr, Literal, Program, Shape};
use shapelang::lexer::lex;
use shapelang::parser::{parse_expression, parse_program, ParseError, ParseErrorType, Parser};
use shapelang::pos::create_pos;

fn expr(s: &str) -> Result<Expr, ParseError> {
    parse_expression(lex(&s.to_owned()).unwrap())
}

fn shape(s: &str) -> Result<Shape, ParseError> {
    let tokens = lex(&s.to_owned()).unwrap();
    let mut parser = Parser::new(&tokens);
    parser.shape()
}

fn program(s: &str) -> Result<Program, ParseError> {
    parse_program(lex(&s.to_owned()).unwrap())
}

fn check_number_literal() {
    match expr("2").unwrap() {
        Expr::Literal(Literal::Number(n), _) => assert_eq!(n, "2"),
        e => panic!("unexpected {:?}", e),
    }
}

fn check_simple_identifier() {
    match expr("hello").unwrap() {
        Expr::Name(n, r) => {
            assert_eq!(n, "hello");
            assert_eq!(r.start, create_pos(0, 0));
            assert_eq!(r.end, create_pos(0, 5));
        }
        e => panic!("unexpected {:?}", e),
    }
}

fn check_reserved_identifier() {
    match expr("shape") {
        Ok(_) => assert!(false, "reserved word should not be parsable as identifier"),
        Err(e) => assert_eq!(
            e.error_type,
            ParseErrorType::IdentifierCannotBeReservedWord("shape".to_owned())
        ),
    }
}

fn check_simple_binary_expression() {
    match expr("10 + 2").unwrap() {
        Expr::Binary(l, op, r, p) => {
            assert!(matches!(*l, Expr::Literal(Literal::Number(ref n), _) if n == "10"));
            assert_eq!(op, BinOp::Add);
            assert!(matches!(*r, Expr::Literal(Literal::Number(ref n), _) if n == "2"));
            assert_eq!(p, create_pos(0, 3));
        }
        e => panic!("unexpected {:?}", e),
    }
}

fn check_simple_shape() {
    let s = shape("shape circle(r) {\n  ellipse(rx: r, ry: r)\n}").unwrap();
    assert_eq!(s.name, "circle");
    assert_eq!(s.args.len(), 1);
    assert_eq!(s.args[0].name, "r");
    assert!(s.args[0].default.is_none());
    assert_eq!(s.pos, create_pos(0, 0));
    assert_eq!(s.block.calls.len(), 1);
    let call = &s.block.calls[0];
    assert_eq!(call.ident, "ellipse");
    assert_eq!(call.args.len(), 2);
    assert_eq!(call.args[0].name, "rx");
    assert_eq!(call.args[1].name, "ry");
    assert!(matches!(call.args[0].expr, Expr::Name(ref n, _) if n == "r"));
    assert_eq!(s.block.range.start, create_pos(0, 16));
    assert_eq!(s.block.range.end, create_pos(2, 1));
}

fn check_shape_multiple_statements() {
    let code = "shape circle(r) {
  ellipse(rx: r, ry: r * 10)
  ellipse(rx: r, ry: r)
  ellipse(rx: r, ry: r * 10)
  ellipse(rx: r, ry: r * 10)
  ellipse(rx: r, ry: r)
  ellipse(rx: r, ry: r)
}";
    let s = shape(code).unwrap();
    assert_eq!(s.block.calls.len(), 6);
    assert!(matches!(s.block.calls[0].args[1].expr, Expr::Binary(_, BinOp::Mul, _, _)));
    assert!(matches!(s.block.calls[1].args[1].expr, Expr::Name(_, _)));
    assert_eq!(s.block.calls[5].range.start, create_pos(6, 2));
}

fn check_simple_program() {
    let code = "
shape shape1(r) {
  circle(r: 10)
}

shape shape2(r) {
  circle(r: 20)
}
";
    let p = program(code).unwrap();
    assert_eq!(2, p.decls.len());
    let Decl::ShapeDecl(first) = &p.decls[0];
    let Decl::ShapeDecl(second) = &p.decls[1];
    assert_eq!(first.name, "shape1");
    assert_eq!(second.name, "shape2");
    assert!(matches!(
        second.block.calls[0].args[0].expr,
        Expr::Literal(Literal::Number(ref n), _) if n == "20"
    ));
    assert_eq!(p.end, create_pos(6, 1));
}

#[test]
fn parser_parse_number_literal() {
    check_number_literal();
}

#[test]
fn mod_parse_number_literal() {
    check_number_literal();
}

#[test]
fn parser_parse_simple_identifier() {
    check_simple_identifier();
}

#[test]
fn mod_parse_simple_identifier() {
    check_simple_identifier();
}

#[test]
fn parser_parse_reserved_identifier() {
    check_reserved_identifier();
}

#[test]
fn mod_parse_reserved_identifier() {
    check_reserved_identifier();
}

#[test]
fn parser_parse_simple_binary_expression() {
    check_simple_binary_expression();
}

#[test]
fn mod_parse_simple_binary_expression() {
    check_simple_binary_expression();
}

#[test]
fn parser_parse_simple_shape() {
    check_simple_shape();
}

#[test]
fn mod_parse_simple_shape() {
    check_simple_shape();
}

#[test]
fn parser_parse_shape_multiple_statements() {
    check_shape_multiple_statements();
}

#[test]
fn mod_parse_shape_multiple_statements() {
    check_shape_multiple_statements();
}

#[test]
fn parser_parse_simple_program() {
    check_simple_program();
}

#[test]
fn mod_parse_simple_program() {
    check_simple_program();
}

#[test]
fn reserved_shape_name_is_refused() {
    let err = program("shape shape() {}").unwrap_err();
    assert_eq!(
        err.error_type,
        ParseErrorType::IdentifierCannotBeReservedWord("shape".to_owned())
    );
    assert_eq!(err.pos, create_pos(0, 6));
}

#[test]
fn reserved_word_as_argument_value_is_refused() {
    let err = program("shape main() { svg(value: shape) }").unwrap_err();
    assert_eq!(
        err.error_type,
        ParseErrorType::IdentifierCannotBeReservedWord("shape".to_owned())
    );
}

#[test]
fn precedence_and_grouping() {
    match expr("1 + 2 * 3").unwrap() {
        Expr::Binary(_, BinOp::Add, r, _) => assert!(matches!(*r, Expr::Binary(_, BinOp::Mul, _, _))),
        e => panic!("unexpected {:?}", e),
    }
    match expr("(1 + 2) * 3").unwrap() {
        Expr::Binary(l, BinOp::Mul, _, _) => assert!(matches!(*l, Expr::Grouping(_))),
        e => panic!("unexpected {:?}", e),
    }
    match expr("8 - 2 - 1").unwrap() {
        Expr::Binary(l, BinOp::Sub, _, _) => assert!(matches!(*l, Expr::Binary(_, BinOp::Sub, _, _))),
        e => panic!("unexpected {:?}", e),
    }
}

#[test]
fn unbalanced_paren() {
    let err = expr("(1 + 2").unwrap_err();
    assert_eq!(err.error_type, ParseErrorType::UnBalancedParen);
    assert_eq!(err.pos, create_pos(0, 0));
}

#[test]
fn unexpected_end_of_input() {
    let err = program("shape main(").unwrap_err();
    assert_eq!(err.error_type, ParseErrorType::UnExpectedEndOfInput);
    assert_eq!(err.pos, create_pos(0, 11));
}

#[test]
fn default_parameters() {
    let s = shape("shape test(c = \"hello\", n) {}").unwrap();
    assert_eq!(s.args.len(), 2);
    assert!(matches!(s.args[0].default, Some(Expr::Literal(Literal::String(ref v), _)) if v == "hello"));
    assert!(s.args[1].default.is_none());
}

#[test]
fn expected_error_names_found_token() {
    let err = program("shape main() { svg(value 3) }").unwrap_err();
    match err.error_type {
        ParseErrorType::Expected(_, Some(_)) => {}
        e => panic!("unexpected {:?}", e),
    }
}
