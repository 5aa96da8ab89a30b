use interp_test::dissassembler::{Dissassembler, Token};
use interp_test::error::ExecError;
use interp_test::expr::{Binding, Expr, Operator};
use interp_test::imsta::ImCompiler;

fn num(x: f64) -> Expr {
    Expr::Float(x.to_bits())
}

fn global(name: &str) -> Binding {
    Binding::Global(name.to_string())
}

fn text(tokens: &[Token]) -> String {
    let mut out = String::new();
    for token in tokens {
        match token {
            Token::Indent(level) => out.push_str(&" ".repeat(4 * level)),
            Token::Newline => out.push('\n'),
            Token::Space => out.push(' '),
            Token::Open => out.push('{'),
            Token::Close => out.push('}'),
            Token::Global => out.push_str("global "),
            Token::Equals => out.push_str(" = "),
            Token::While => out.push_str("while "),
            Token::Return => out.push_str("return "),
            Token::Float(bits) => out.push_str(&format!("{}f64", f64::from_bits(*bits))),
            Token::True => out.push_str("true"),
            Token::False => out.push_str("false"),
            Token::Name(name) => out.push_str(name),
            Token::Operator(op) => out.push_str(match op {
                Operator::Add => " + ",
                Operator::Sub => " - ",
                Operator::Mul => " * ",
                Operator::Div => " / ",
                Operator::Rem => " % ",
                Operator::Eq => " == ",
                Operator::Neq => " != ",
                Operator::Lt => " < ",
                Operator::Lte => " <= ",
                Operator::Gt => " > ",
                Operator::Gte => " >= ",
            }),
        }
    }
    out
}

fn names(tokens: &[Token]) -> Vec<String> {
    let mut out = Vec::new();
    for token in tokens {
        if let Token::Name(name) = token {
            out.push(name.clone());
        }
    }
    out
}

fn render(expr: Expr) -> Result<Vec<Token>, ExecError> {
    let mut compiler = ImCompiler::new();
    compiler.compile_expr(expr);
    Dissassembler::from(compiler).dissassemble()
}

fn on_tape(tape: Vec<u64>, globals: Vec<&str>) -> Dissassembler {
    let mut compiler = ImCompiler::new();
    compiler.future_tape = tape;
    compiler.globals = globals.into_iter().map(|s| s.to_string()).collect();
    Dissassembler::from(compiler)
}

fn counting() -> Expr {
    Expr::Block(vec![
        global("x").assign(num(100.0)),
        Expr::While(
            Expr::BinaryOp(Expr::Var(global("x")).into(), Operator::Gt, num(0.0).into()).into(),
            global("x")
                .assign(Expr::BinaryOp(
                    Expr::Var(global("x")).into(),
                    Operator::Sub,
                    num(1.0).into(),
                ))
                .into(),
        ),
        Expr::Return(global("x").var().into()),
    ])
}

#[test]
fn the_counting_program_reads_back() {
    let tokens = render(counting()).unwrap();
    assert_eq!(
        text(&tokens),
        "\n{\n    global x = 100f64\n    while x > 0f64 {\n        global x = x - 1f64\n    }\n    return x\n}"
    );
}

#[test]
fn every_reference_is_mentioned_once() {
    let tokens = render(counting()).unwrap();
    assert_eq!(names(&tokens), vec!["x", "x", "x", "x", "x"]);

    let program = Expr::Block(vec![
        global("sum").assign(Expr::global("a").add(Expr::global("b"))),
        Expr::While(
            Expr::global("a").op(Operator::Lt, Expr::global("limit")).into(),
            Expr::Return(Expr::global("sum").into()).into(),
        ),
        global("a").assign(Expr::Return(Expr::global("b").into())),
        Expr::Block(vec![Expr::global("deep"), Expr::global("a")]),
    ]);
    let tokens = render(program).unwrap();
    assert_eq!(
        names(&tokens),
        vec!["sum", "a", "b", "a", "limit", "sum", "a", "b", "deep", "a"]
    );
}

#[test]
fn pieces_of_each_construct() {
    let tokens = render(Expr::Boolean(true).op(Operator::Neq, num(2.0))).unwrap();
    assert_eq!(text(&tokens), "true != 2f64");
    assert!(matches!(
        tokens.as_slice(),
        [Token::True, Token::Operator(Operator::Neq), Token::Float(bits)] if *bits == 2.0f64.to_bits()
    ));

    let tokens = render(global("v").assign(Expr::Boolean(false))).unwrap();
    assert!(matches!(
        tokens.as_slice(),
        [Token::Indent(0), Token::Global, Token::Name(name), Token::Equals, Token::False] if name == "v"
    ));

    let tokens = render(Expr::Return(Expr::global("r").into())).unwrap();
    assert!(matches!(
        tokens.as_slice(),
        [Token::Indent(0), Token::Return, Token::Name(name)] if name == "r"
    ));

    let tokens = render(Expr::Block(vec![])).unwrap();
    assert!(matches!(
        tokens.as_slice(),
        [Token::Newline, Token::Indent(0), Token::Open, Token::Newline, Token::Indent(0), Token::Close]
    ));

    let tokens = render(Expr::While(Expr::Boolean(true).into(), Expr::Return(num(50.0).into()).into())).unwrap();
    assert_eq!(text(&tokens), "while true {\n    return 50f64\n}");

    let tokens = render(Expr::Block(vec![Expr::Block(vec![Expr::Boolean(true)])])).unwrap();
    // a literal stands in its line without an indentation of its own
    assert_eq!(text(&tokens), "\n{\n\n    {\ntrue\n    }\n}");
}

#[test]
fn a_program_ends_its_line() {
    let mut compiler = ImCompiler::new();
    compiler.compile_expr(Expr::global("x").add(num(1.0)));
    let mut reader = Dissassembler::from(compiler);
    assert_eq!(reader.offset(), 0);
    assert_eq!(reader.peek(), Ok(4));
    let tokens = reader.dissassemble_program().unwrap();
    assert_eq!(text(&tokens), "x + 1f64\n");
    assert_eq!(reader.offset(), 5);
    assert_eq!(reader.peek(), Err(ExecError::OutOfRange));
    assert_eq!(reader.read(), Err(ExecError::OutOfRange));
    assert!(matches!(reader.dissassemble(), Err(ExecError::OutOfRange)));
}

#[test]
fn reading_word_by_word() {
    let mut reader = on_tape(vec![17, 3, 1], vec![]);
    assert_eq!(reader.peek(), Ok(3));
    assert_eq!(reader.read(), Ok(17));
    assert_eq!(reader.peek(), Ok(1));
    assert_eq!(reader.read(), Ok(3));
    let tokens = reader.dissassemble().unwrap();
    assert!(matches!(tokens.as_slice(), [Token::True]));
    assert_eq!(reader.offset(), 3);
}

#[test]
fn tapes_that_do_not_read_back() {
    assert!(matches!(on_tape(vec![], vec![]).dissassemble(), Err(ExecError::OutOfRange)));
    assert!(matches!(on_tape(vec![3], vec![]).dissassemble(), Err(ExecError::OutOfRange)));
    assert!(matches!(on_tape(vec![4], vec!["x"]).dissassemble(), Err(ExecError::OutOfRange)));
    assert!(matches!(on_tape(vec![4, 1], vec!["x"]).dissassemble(), Err(ExecError::InvalidSlot)));
    assert!(matches!(on_tape(vec![5, 1, 1], vec!["x"]).dissassemble(), Err(ExecError::InvalidSlot)));
    assert!(matches!(on_tape(vec![5, 0], vec!["x"]).dissassemble(), Err(ExecError::OutOfRange)));
    assert!(matches!(on_tape(vec![0], vec![]).dissassemble(), Err(ExecError::InvalidOpcode)));
    assert!(matches!(on_tape(vec![20, 0, 3, 1], vec![]).dissassemble(), Err(ExecError::InvalidOpcode)));
    assert!(matches!(on_tape(vec![1002, 1], vec![]).dissassemble(), Err(ExecError::UnknownHint)));
    assert!(matches!(on_tape(vec![6, 1], vec![]).dissassemble(), Err(ExecError::OutOfRange)));
    assert!(matches!(on_tape(vec![17], vec![]).dissassemble(), Err(ExecError::OutOfRange)));
    // a block whose end lies inside a statement runs off the tape
    assert!(matches!(on_tape(vec![17, 3, 3, 7], vec![]).dissassemble(), Err(ExecError::OutOfRange)));
    assert!(matches!(on_tape(vec![19], vec![]).dissassemble(), Err(ExecError::OutOfRange)));
    assert!(matches!(on_tape(vec![19, 0, 1], vec![]).dissassemble(), Err(ExecError::OutOfRange)));
}

#[test]
fn a_listing_is_the_program_read_back() {
    let tokens = interp_test::roundtrip::listing(counting());
    assert_eq!(
        text(&tokens),
        "\n{\n    global x = 100f64\n    while x > 0f64 {\n        global x = x - 1f64\n    }\n    return x\n}"
    );
    assert_eq!(names(&tokens), vec!["x", "x", "x", "x", "x"]);
    // a program that no machine can run still reads back
    let odd = global("a").assign(Expr::While(
        Expr::Return(Expr::global("b").into()).into(),
        Expr::While(Expr::global("c").into(), Expr::global("a").into()).into(),
    ));
    let tokens = interp_test::roundtrip::listing(odd);
    assert_eq!(names(&tokens), vec!["a", "b", "c", "a"]);
    assert_eq!(
        text(&tokens),
        "global a = while return b {\n    while c {\na\n    }\n}"
    );
}
