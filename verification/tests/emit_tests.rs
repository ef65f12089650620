use habu::emit::Emitter;
use habu::parse::{
    Block, BreakOrCont, Expression, FunctionCall, FunctionDefinition, Program, Statement,
    TopLevelObject, UnaryType,
};

const HEADER: &str = "class Loop:\n    continue_flag = False\n    semaphore = 0\n";

fn s(x: &str) -> String {
    x.to_string()
}

fn id(x: &str) -> Expression {
    Expression::Identifier(s(x))
}

fn num(n: i64) -> Expression {
    Expression::Integer(n)
}

fn call(name: &str, arguments: Vec<Expression>) -> FunctionCall {
    FunctionCall { name: s(name), arguments }
}

fn emit_statements(statements: Vec<Statement>) -> String {
    let program = Program {
        objects: statements.into_iter().map(TopLevelObject::Statement).collect(),
    };
    Emitter::new().emit(&program)
}

fn emit_expression(e: Expression) -> String {
    let out = emit_statements(vec![Statement::FunctionCall(call("f", vec![e]))]);
    let body = out.strip_prefix(HEADER).unwrap();
    body.strip_prefix("f(").unwrap().strip_suffix(")\n").unwrap().to_string()
}

#[test]
fn empty_program_is_only_the_loop_class() {
    assert_eq!(Emitter::new().emit(&Program { objects: vec![] }), HEADER);
}

#[test]
fn function_definition_and_call() {
    let program = Program {
        objects: vec![
            TopLevelObject::FunctionDefinition(FunctionDefinition {
                name: s("f"),
                parameters: vec![s("a"), s("b")],
                body: Block {
                    statements: vec![Statement::Assignment {
                        target: s("x"),
                        operator: Some(s("+")),
                        value: num(1),
                    }],
                },
            }),
            TopLevelObject::Statement(Statement::FunctionCall(call("print", vec![id("x"), num(-3)]))),
        ],
    };
    assert_eq!(
        Emitter::new().emit(&program),
        format!("{}def f(a, b):\n    x = x + 1\n\nprint(x, -3)\n", HEADER)
    );
}

#[test]
fn declarations_and_assignments() {
    let out = emit_statements(vec![
        Statement::Declaration { target: s("a"), value: None },
        Statement::Declaration { target: s("b"), value: Some(num(2)) },
        Statement::Assignment { target: s("a"), operator: None, value: id("b") },
        Statement::Assignment { target: s("a"), operator: Some(s("^")), value: num(3) },
    ]);
    assert_eq!(out, format!("{}let a\nlet b = 2\na = b\na = a ** 3\n", HEADER));
}

#[test]
fn if_with_else() {
    let out = emit_statements(vec![Statement::IfStatement {
        cond: Expression::BinaryOperation {
            left: Box::new(id("x")),
            operator: s("=?"),
            right: Box::new(num(1)),
        },
        then: Block { statements: vec![Statement::FunctionCall(call("a", vec![]))] },
        els: Some(Block { statements: vec![Statement::FunctionCall(call("b", vec![]))] }),
    }]);
    assert_eq!(out, format!("{}if x == 1:\n    a()\nelse:\n    b()\n\n", HEADER));
}

#[test]
fn for_loop_with_guard_and_nested_if() {
    let out = emit_statements(vec![Statement::ForStatement {
        var: s("i"),
        iterator: id("xs"),
        body: Block {
            statements: vec![Statement::IfStatement {
                cond: id("i"),
                then: Block {
                    statements: vec![Statement::LoopInst { instruction: BreakOrCont::Break, times: None }],
                },
                els: None,
            }],
        },
    }]);
    let expected = format!(
        "{}for i in xs:\n\
         \x20   if Loop.semaphore > 0:\n\
         \x20       Loop.semaphore -= 1\n\
         \x20       if Loop.semaphore == 0 and Loop.continue_flag:\n\
         \x20           Loop.continue_flag = False\n\
         \x20           continue\n\
         \x20       break\n\
         \x20   if i:\n\
         \x20       Loop.semaphore = 1;continue\n\
         \n\n",
        HEADER
    );
    assert_eq!(out, expected);
}

#[test]
fn loop_instructions() {
    let out = emit_statements(vec![
        Statement::LoopInst { instruction: BreakOrCont::Break, times: None },
        Statement::LoopInst { instruction: BreakOrCont::Cont, times: Some(num(2)) },
    ]);
    assert_eq!(
        out,
        format!(
            "{}Loop.semaphore = 1;continue\nLoop.semaphore = 2;Loop.continue_flag = True;continue\n",
            HEADER
        )
    );
}

#[test]
fn ranges_follow_their_brackets() {
    let range = |l: &str, r: &str| Expression::Range {
        left_interval: s(l),
        left: Box::new(id("a")),
        right: Box::new(id("b")),
        right_interval: s(r),
    };
    assert_eq!(emit_expression(range("[", "]")), "range(-(a//-1), int(b)+1)");
    assert_eq!(emit_expression(range("(", ")")), "range(int(a)+1, -(b//-1))");
    assert_eq!(emit_expression(range("[", ")")), "range(-(a//-1), -(b//-1))");
}

#[test]
fn unary_and_binary_operators() {
    let pre = Expression::UnaryOperation { base: Box::new(id("x")), operator: s("-"), unary_type: UnaryType::Before };
    let suf = Expression::UnaryOperation { base: Box::new(id("x")), operator: s("!"), unary_type: UnaryType::After };
    assert_eq!(emit_expression(pre), "-x");
    assert_eq!(emit_expression(suf), "x!");
    let bin = |op: &str| Expression::BinaryOperation { left: Box::new(id("a")), operator: s(op), right: Box::new(id("b")) };
    assert_eq!(emit_expression(bin("=/")), "a != b");
    assert_eq!(emit_expression(bin(">_")), "a >= b");
    assert_eq!(emit_expression(bin("<_")), "a <= b");
    assert_eq!(emit_expression(bin("&|")), "a ^ b");
    assert_eq!(emit_expression(bin("|&")), "a ^ b");
    assert_eq!(emit_expression(bin("%")), "a % b");
}

#[test]
fn literals_pass_through() {
    assert_eq!(emit_expression(Expression::String(s("\"hi\""))), "\"hi\"");
    assert_eq!(emit_expression(Expression::Float(s("1.5"))), "1.5");
    assert_eq!(emit_expression(num(i64::MIN)), "-9223372036854775808");
    assert_eq!(
        emit_expression(Expression::FunctionCall(call("g", vec![num(1), id("y")]))),
        "g(1, y)"
    );
}

#[test]
fn operator_table_and_lookup() {
    let mut e = Emitter::new();
    assert_eq!(e.operator(&s("=?")), "==");
    assert_eq!(e.operator(&s("^")), "**");
    assert_eq!(e.operator(&s("+")), "+");
    let map = Emitter::operator_map();
    assert_eq!(map.len(), 7);
    assert!(map.contains(&(s("<_"), s("<="))));
}

#[test]
fn indented_lines() {
    let mut e = Emitter::new();
    assert_eq!(e.indented(vec!["a", "b"], 1), "    a\n    b\n");
    assert_eq!(e.indented(vec!["x"], 0), "x\n");
    assert_eq!(e.indented(vec![], 3), "");
}

#[test]
fn emitting_twice_gives_the_same_text() {
    let program = Program {
        objects: vec![TopLevelObject::Statement(Statement::ForStatement {
            var: s("i"),
            iterator: id("xs"),
            body: Block { statements: vec![Statement::FunctionCall(call("p", vec![id("i")]))] },
        })],
    };
    let mut e = Emitter::new();
    let first = e.emit(&program);
    let second = e.emit(&program);
    assert_eq!(first, second);
}

#[test]
fn ordinary_programs_fit() {
    let program = Program {
        objects: vec![TopLevelObject::Statement(Statement::ForStatement {
            var: s("i"),
            iterator: id("xs"),
            body: Block { statements: vec![] },
        })],
    };
    assert!(Emitter::new().fits_program(&program));
    assert!(Emitter::new().fits_program(&Program { objects: vec![] }));
}
