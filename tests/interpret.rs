use shapelang::interpret::{
    eval_expression, eval_program, find_shapes, text_of, Context, EvalError, EvalErrorType, Num,
    Piece, Value,
};
use shapelang::lexer::lex;
use shapelang::parser::{parse_expression, parse_program};
use shapelang::pos::create_pos;
use shapelang::ast::{BinOp, Program};
use shapelang::pipeline::{compile, CompileFailure};

const OPEN: &str = "<svg width=\"100%\" height=\"100%\" xmlns=\"http://www.w3.org/2000/svg\">";

fn number(n: &Num) -> f64 {
    match n {
        Num::Lit(s) => s.parse::<f64>().unwrap(),
        Num::Neg(a) => -number(a),
        Num::Bin(a, op, b) => {
            let (x, y) = (number(a), number(b));
            match op {
                BinOp::Mul => x * y,
                BinOp::Div => x / y,
                BinOp::Add => x + y,
                BinOp::Sub => x - y,
            }
        }
    }
}

fn render(pieces: &[Piece]) -> String {
    let mut out = String::new();
    for p in pieces {
        match p {
            Piece::Text(s) => out.push_str(s),
            Piece::Num(n) => out.push_str(&format!("{}", number(n))),
        }
    }
    out
}

fn eval_str(line: &str) -> Value {
    let tokens = lex(&line.to_owned()).unwrap();
    let expr = parse_expression(tokens).unwrap();
    let ctx = Context::new();
    eval_expression(&expr, &ctx.scope).unwrap()
}

fn check_number(line: &str, expected: f64) {
    match eval_str(line) {
        Value::Number(n) => assert_eq!(number(&n), expected),
        v => panic!("expected a number, got {:?}", v),
    }
}

fn check_string(line: &str, expected: &str) {
    match eval_str(line) {
        Value::String(ps) => assert_eq!(render(&ps), expected),
        v => panic!("expected a string, got {:?}", v),
    }
}

fn parse(line: &str) -> Program {
    parse_program(lex(&line.to_owned()).unwrap()).unwrap()
}

fn run_program(line: &str) -> Result<String, EvalError> {
    eval_program(&parse(line)).map(|ps| render(&ps))
}

fn wrapped(inner: &str) -> String {
    format!("{}{}</svg>", OPEN, inner)
}

#[test]
fn mod_context_empty() {
    let context = Context::new();
    assert_eq!(context.scope.len(), 0);
}

#[test]
fn mod_adding_item_to_context() {
    let mut context = Context::new();
    context.set("foo", Value::from_string("bar"));
    match context.get("foo") {
        Some(Value::String(ps)) => assert_eq!(text_of(&ps), Some("bar".to_owned())),
        v => panic!("unexpected {:?}", v),
    }
    assert!(context.get("baz").is_none());
}

#[test]
fn mod_literals() {
    check_number("1", 1.0);
}

#[test]
fn mod_binary_ops() {
    check_number("1 + 1", 2.0);
    check_number("1.5 + 1", 2.5);
    check_number("2 * 2", 4.0);
    check_number("4 / 2", 2.0);
    check_number("6 - 3", 3.0);
    check_number("3 * (2 + -4) / 2 * 3", -9.0);
    check_string("3 + \"hello\"", "3hello");
}

#[test]
fn mod_simple_find_shapes() {
    let program = parse("\nshape main() {}\nshape circle(r) {}\nshape rect(w, h) {}\n");
    let shapes = find_shapes(Vec::new(), &program, true).unwrap();
    assert_eq!(shapes.len(), 3)
}

#[test]
fn mod_shape_already_defined() {
    let program = parse("\nshape main() {}\nshape circle(r) {}\nshape circle(r) {}\n");
    match find_shapes(Vec::new(), &program, true) {
        Ok(_) => assert!(false),
        Err(e) => {
            assert_eq!(e.error_type, EvalErrorType::ShapeAlreadyDefined("circle".to_owned()));
            assert_eq!(e.pos, create_pos(2, 0));
        }
    };
}

#[test]
fn mod_missing_main_shape() {
    let program = parse("\nshape circle(r) {}\n");
    match find_shapes(Vec::new(), &program, true) {
        Ok(_) => assert!(false),
        Err(e) => match e.error_type {
            EvalErrorType::MissingMain => assert!(true),
            _ => assert!(false),
        },
    };
}

#[test]
fn mod_eval_simple_program() {
    let value = run_program("\nshape main() {\n  svg(value: \"hello\")\n}\n").unwrap();
    assert_eq!(value, wrapped("hello"));
}

#[test]
fn eval_program_with_call() {
    let line = "
shape test1(c) {
  svg(value: c)
}

shape test2(c) {
  test1(c: c)
}

shape main() {
  test2(c: \"hello\")
}
";
    assert_eq!(run_program(line).unwrap(), wrapped("hello"));
}

#[test]
fn eval_program_with_default_arg() {
    let line = "
shape test(c = \"hello\") {
  svg(value: c)
}

shape main() {
  test()
}
";
    assert_eq!(run_program(line).unwrap(), wrapped("hello"));
}

#[test]
fn shape_scope1() {
    let line = "
shape test1(r) {
  svg(value: c)
}

shape test2(c) {
  test1(r: c)
}

shape main() {
  test2(c: \"hello\")
}
";
    match run_program(line) {
        Ok(_) => assert!(false),
        Err(e) => match e.error_type {
            EvalErrorType::VariableNotDefined(_) => assert!(true),
            _ => assert!(false),
        },
    };
}

#[test]
fn stack_overflow() {
    let line = "
shape test() {
  test()
}

shape main() {
  test()
}
";
    match run_program(line) {
        Ok(_) => assert!(false),
        Err(e) => match e.error_type {
            EvalErrorType::StackOverflow(frames) => {
                assert!(frames.len() > 256);
                assert_eq!(frames.len(), 257);
                assert_eq!(frames[0], "test");
                assert_eq!(frames[frames.len() - 1], "test");
            }
            _ => assert!(false),
        },
    };
}

#[test]
fn empty_main_is_bare_wrapper() {
    let out = eval_program(&parse("shape main() {}")).unwrap();
    assert_eq!(
        text_of(&out),
        Some("<svg width=\"100%\" height=\"100%\" xmlns=\"http://www.w3.org/2000/svg\"></svg>".to_owned())
    );
}

#[test]
fn svg_string_is_inner_content() {
    let out = eval_program(&parse("shape main() { svg(value: \"hi\") }")).unwrap();
    assert_eq!(text_of(&out), Some(wrapped("hi")));
}

#[test]
fn explicit_argument_overrides_default() {
    let with_default = "shape test(c=\"hello\"){ svg(value:c) } shape main(){ test() }";
    let explicit = "shape test(c=\"hello\"){ svg(value:c) } shape main(){ test(c: \"x\") }";
    assert_eq!(run_program(with_default).unwrap(), wrapped("hello"));
    assert_eq!(run_program(explicit).unwrap(), wrapped("x"));
}

#[test]
fn default_is_evaluated_in_caller_scope() {
    let line = "shape inner(v = c) { svg(value: v) } shape outer(c) { inner() } shape main() { outer(c: \"from caller\") }";
    assert_eq!(run_program(line).unwrap(), wrapped("from caller"));
}

#[test]
fn arithmetic_follows_binary64() {
    check_number("0.1 + 0.2", 0.1 + 0.2);
    check_number("1 / 3", 1.0 / 3.0);
    check_number("7 - 10", -3.0);
    check_number("2.5 * 4", 10.0);
    match eval_str("1 / 0") {
        Value::Number(n) => assert_eq!(number(&n), f64::INFINITY),
        v => panic!("unexpected {:?}", v),
    }
    match eval_str("0 / 0") {
        Value::Number(n) => assert!(number(&n).is_nan()),
        v => panic!("unexpected {:?}", v),
    }
}

#[test]
fn number_plus_string_concatenates() {
    check_string("3 + \"hello\"", "3hello");
    check_string("\"a\" + 1.5", "a1.5");
    check_string("\"a\" + \"b\"", "ab");
    match eval_str("3 + \"hello\"") {
        Value::String(ps) => assert_eq!(text_of(&ps), None),
        v => panic!("unexpected {:?}", v),
    }
}

#[test]
fn duplicate_with_builtin_is_refused() {
    let err = run_program("shape main() {}\nshape circle(r) {}").unwrap_err();
    assert_eq!(err.error_type, EvalErrorType::ShapeAlreadyDefined("circle".to_owned()));
    assert_eq!(err.pos, create_pos(1, 0));
}

#[test]
fn duplicate_user_shape_is_refused_at_second() {
    let err = run_program("shape main() {}\nshape a() {}\nshape a() {}").unwrap_err();
    assert_eq!(err.error_type, EvalErrorType::ShapeAlreadyDefined("a".to_owned()));
    assert_eq!(err.pos, create_pos(2, 0));
}

#[test]
fn missing_main_at_end_of_input() {
    let err = run_program("shape a() {}\nshape main(x) {}").unwrap_err();
    assert_eq!(err.error_type, EvalErrorType::MissingMain);
    assert_eq!(err.pos, create_pos(1, 16));
}

#[test]
fn svg_expects_string() {
    let err = run_program("shape main() { svg(value: 3) }").unwrap_err();
    assert_eq!(err.error_type, EvalErrorType::SvgExpectsString("number".to_owned()));
    assert_eq!(err.pos, create_pos(0, 26));
}

#[test]
fn svg_argument_errors() {
    let err = run_program("shape main() { svg() }").unwrap_err();
    assert_eq!(err.error_type, EvalErrorType::NumArgs("svg".to_owned(), 1, 0));
    let err = run_program("shape main() { svg(v: \"x\") }").unwrap_err();
    assert_eq!(
        err.error_type,
        EvalErrorType::MissingArgs("svg".to_owned(), vec!["value".to_owned()])
    );
}

#[test]
fn other_evaluation_errors() {
    let err = run_program("shape main() { nothing() }").unwrap_err();
    assert_eq!(err.error_type, EvalErrorType::ShapeNotDefined("nothing".to_owned()));
    let err = run_program("shape f(a) { svg(value: a) } shape main() { f() }").unwrap_err();
    assert_eq!(
        err.error_type,
        EvalErrorType::MissingRequiredArg("f".to_owned(), "a".to_owned())
    );
    let err = run_program("shape main() { svg(value: \"a\" * 2) }").unwrap_err();
    assert_eq!(
        err.error_type,
        EvalErrorType::TypeMismatch("number".to_owned(), "string".to_owned())
    );
    assert_eq!(err.pos, create_pos(0, 26));
    let err = run_program("shape main() { svg(value: -\"a\") }").unwrap_err();
    assert_eq!(
        err.error_type,
        EvalErrorType::TypeMismatch("number".to_owned(), "string".to_owned())
    );
}

#[test]
fn builtin_circle_renders() {
    let out = run_program("shape main() { circle(r: 5, fill: \"red\") }").unwrap();
    assert_eq!(
        out,
        wrapped("<circle cx='0' cy='0' r='5' fill='red' stroke='none' stroke-width='0'/>")
    );
}

#[test]
fn builtin_rect_renders() {
    let out = run_program("shape main() { rect(x: 1.5 * 2, width: 20) }").unwrap();
    assert_eq!(
        out,
        wrapped("<rect x='3' y='0' width='20' height='10' fill='hotpink' stroke='none' stroke-width='0'/>")
    );
}

#[test]
fn deep_but_bounded_recursion_succeeds() {
    let mut line = String::from("shape main() { s0() }\n");
    for i in 0..250 {
        line.push_str(&format!("shape s{}() {{ s{}() }}\n", i, i + 1));
    }
    line.push_str("shape s250() { svg(value: \"end\") }\n");
    assert_eq!(run_program(&line).unwrap(), wrapped("end"));
}

#[test]
fn unknown_argument_names_are_ignored() {
    let line = "shape f(a) { svg(value: a) } shape main() { f(a: \"x\", zzz: 1) }";
    assert_eq!(run_program(line).unwrap(), wrapped("x"));
}

#[test]
fn calls_in_sequence_concatenate() {
    let line = "shape main() { svg(value: \"a\") svg(value: \"b\" + 1) }";
    assert_eq!(run_program(line).unwrap(), wrapped("ab1"));
}

#[test]
fn compile_reports_the_failing_stage() {
    assert!(matches!(compile(&"shape main() { # }".to_owned()), Err(CompileFailure::Lex(_))));
    assert!(matches!(compile(&"shape main( {".to_owned()), Err(CompileFailure::Parse(_))));
    assert!(matches!(compile(&"shape f() {}".to_owned()), Err(CompileFailure::Eval(_))));
    let ok = compile(&"shape main() { svg(value: \"<g/>\") }".to_owned()).unwrap();
    assert_eq!(text_of(&ok), Some(wrapped("<g/>")));
}
