use habu::parse::{
    program, BreakOrCont, Expression, ParseTree, Rule, Statement, TopLevelObject, UnaryType,
};

fn node(rule: Rule, text: &str, children: Vec<ParseTree>) -> ParseTree {
    ParseTree { rule, text: text.to_string(), children }
}

fn leaf(rule: Rule, text: &str) -> ParseTree {
    node(rule, text, vec![])
}

fn atom(p: ParseTree) -> ParseTree {
    let text = p.text.clone();
    node(Rule::Other, &text, vec![p])
}

fn bare(a: ParseTree) -> ParseTree {
    let text = a.text.clone();
    node(Rule::Other, &text, vec![node(Rule::BareExpr, &text, vec![atom(a)])])
}

fn statement(inner: ParseTree) -> ParseTree {
    let text = inner.text.clone();
    node(Rule::Statement, &text, vec![inner])
}

fn top(child: ParseTree) -> ParseTree {
    let text = child.text.clone();
    node(Rule::Other, &text, vec![child])
}

fn prog(tops: Vec<ParseTree>) -> ParseTree {
    let mut children = tops;
    children.push(leaf(Rule::Other, ""));
    node(Rule::Program, "", children)
}

#[test]
fn assignment_of_an_integer() {
    let assign = node(Rule::Assignment, "x = 1", vec![leaf(Rule::Id, "x"), bare(leaf(Rule::Integer, "1"))]);
    let p = program(&prog(vec![top(statement(assign))]));
    assert_eq!(p.objects.len(), 1);
    assert_eq!(
        p.objects[0],
        TopLevelObject::Statement(Statement::Assignment {
            target: "x".to_string(),
            operator: None,
            value: Expression::Integer(1),
        })
    );
}

#[test]
fn compound_assignment_and_binary_chain() {
    // x += a + b - c  groups as a + (b - c)
    let rest = node(
        Rule::Other,
        "b - c",
        vec![node(
            Rule::BareExpr,
            "b - c",
            vec![atom(leaf(Rule::Id, "b")), leaf(Rule::Other, "-"), bare(leaf(Rule::Id, "c"))],
        )],
    );
    let value = node(
        Rule::Other,
        "a + b - c",
        vec![node(Rule::BareExpr, "a + b - c", vec![atom(leaf(Rule::Id, "a")), leaf(Rule::Other, "+"), rest])],
    );
    let assign = node(Rule::Assignment, "", vec![leaf(Rule::Id, "x"), leaf(Rule::Op, "+"), value]);
    let p = program(&prog(vec![top(statement(assign))]));
    let id = |s: &str| Box::new(Expression::Identifier(s.to_string()));
    assert_eq!(
        p.objects[0],
        TopLevelObject::Statement(Statement::Assignment {
            target: "x".to_string(),
            operator: Some("+".to_string()),
            value: Expression::BinaryOperation {
                left: id("a"),
                operator: "+".to_string(),
                right: Box::new(Expression::BinaryOperation {
                    left: id("b"),
                    operator: "-".to_string(),
                    right: id("c"),
                }),
            },
        })
    );
}

#[test]
fn unary_operators_and_ranges() {
    let pre = node(
        Rule::Other,
        "-x",
        vec![node(Rule::PreOpExpr, "-x", vec![leaf(Rule::Other, "-"), atom(leaf(Rule::Id, "x"))])],
    );
    let suf = node(
        Rule::Other,
        "x!",
        vec![node(Rule::SufOpExpr, "x!", vec![atom(leaf(Rule::Id, "x")), leaf(Rule::Other, "!")])],
    );
    let range = bare(node(
        Rule::Range,
        "[1, n)",
        vec![leaf(Rule::Other, "["), bare(leaf(Rule::Integer, "1")), bare(leaf(Rule::Id, "n")), leaf(Rule::Other, ")")],
    ));
    let decl = |name: &str, e: ParseTree| statement(node(Rule::Declaration, "", vec![leaf(Rule::Id, name), e]));
    let p = program(&prog(vec![top(decl("a", pre)), top(decl("b", suf)), top(decl("c", range))]));
    assert_eq!(p.objects.len(), 3);
    let x = || Box::new(Expression::Identifier("x".to_string()));
    assert_eq!(
        p.objects[0],
        TopLevelObject::Statement(Statement::Declaration {
            target: "a".to_string(),
            value: Some(Expression::UnaryOperation { base: x(), operator: "-".to_string(), unary_type: UnaryType::Before }),
        })
    );
    assert_eq!(
        p.objects[1],
        TopLevelObject::Statement(Statement::Declaration {
            target: "b".to_string(),
            value: Some(Expression::UnaryOperation { base: x(), operator: "!".to_string(), unary_type: UnaryType::After }),
        })
    );
    assert_eq!(
        p.objects[2],
        TopLevelObject::Statement(Statement::Declaration {
            target: "c".to_string(),
            value: Some(Expression::Range {
                left_interval: "[".to_string(),
                left: Box::new(Expression::Integer(1)),
                right: Box::new(Expression::Identifier("n".to_string())),
                right_interval: ")".to_string(),
            }),
        })
    );
}

#[test]
fn function_definition_with_parameters_and_body() {
    let body = node(
        Rule::Block,
        "",
        vec![
            leaf(Rule::Other, "[INDENT]"),
            statement(node(
                Rule::FunctionCallStatement,
                "print(a)",
                vec![leaf(Rule::Id, "print"), node(Rule::Other, "a", vec![bare(leaf(Rule::Id, "a"))])],
            )),
            leaf(Rule::Other, "[DEDENT]"),
        ],
    );
    let def = node(
        Rule::FunctionDefinition,
        "",
        vec![node(
            Rule::NaryFunctionDefinition,
            "",
            vec![leaf(Rule::Id, "f"), leaf(Rule::Id, "a"), leaf(Rule::Id, "b"), body],
        )],
    );
    let p = program(&prog(vec![top(def)]));
    match &p.objects[0] {
        TopLevelObject::FunctionDefinition(fd) => {
            assert_eq!(fd.name, "f");
            assert_eq!(fd.parameters, vec!["a".to_string(), "b".to_string()]);
            assert_eq!(fd.body.statements.len(), 1);
            match &fd.body.statements[0] {
                Statement::FunctionCall(fc) => {
                    assert_eq!(fc.name, "print");
                    assert_eq!(fc.arguments, vec![Expression::Identifier("a".to_string())]);
                }
                other => panic!("unexpected statement {:?}", other),
            }
        }
        other => panic!("unexpected object {:?}", other),
    }
}

#[test]
fn if_for_and_loop_instructions() {
    let block_of = |ss: Vec<ParseTree>| node(Rule::Block, "", ss);
    let brk = statement(node(Rule::LoopInst, ">", vec![leaf(Rule::Other, ">")]));
    let cont = statement(node(Rule::LoopInst, "^ 2", vec![leaf(Rule::Other, "^"), bare(leaf(Rule::Integer, "2"))]));
    let iff = statement(node(
        Rule::IfStatement,
        "",
        vec![bare(leaf(Rule::Id, "c")), block_of(vec![brk]), block_of(vec![cont])],
    ));
    let for_loop = statement(node(
        Rule::ForLoop,
        "",
        vec![leaf(Rule::Id, "i"), bare(leaf(Rule::Id, "xs")), block_of(vec![iff])],
    ));
    let p = program(&prog(vec![top(for_loop)]));
    match &p.objects[0] {
        TopLevelObject::Statement(Statement::ForStatement { var, iterator, body }) => {
            assert_eq!(var, "i");
            assert_eq!(*iterator, Expression::Identifier("xs".to_string()));
            match &body.statements[0] {
                Statement::IfStatement { cond, then, els } => {
                    assert_eq!(*cond, Expression::Identifier("c".to_string()));
                    assert_eq!(
                        then.statements[0],
                        Statement::LoopInst { instruction: BreakOrCont::Break, times: None }
                    );
                    assert_eq!(
                        els.as_ref().unwrap().statements[0],
                        Statement::LoopInst { instruction: BreakOrCont::Cont, times: Some(Expression::Integer(2)) }
                    );
                }
                other => panic!("unexpected statement {:?}", other),
            }
        }
        other => panic!("unexpected object {:?}", other),
    }
}

#[test]
fn empty_nodes_give_no_object() {
    let p = program(&prog(vec![leaf(Rule::Other, ""), leaf(Rule::Other, "")]));
    assert!(p.objects.is_empty());
}

#[test]
fn grouping_strings_floats_and_calls() {
    let group = bare(node(Rule::Grouping, "(\"s\")", vec![bare(leaf(Rule::String, "\"s\""))]));
    let float = bare(leaf(Rule::Float, "2.5"));
    let call = bare(node(
        Rule::FunctionCall,
        "g()",
        vec![leaf(Rule::Id, "g")],
    ));
    let decl = |name: &str, e: ParseTree| top(statement(node(Rule::Declaration, "", vec![leaf(Rule::Id, name), e])));
    let p = program(&prog(vec![decl("a", group), decl("b", float), decl("c", call)]));
    let value = |i: usize| match &p.objects[i] {
        TopLevelObject::Statement(Statement::Declaration { value, .. }) => value.as_ref().unwrap(),
        other => panic!("unexpected object {:?}", other),
    };
    assert_eq!(*value(0), Expression::String("\"s\"".to_string()));
    assert_eq!(*value(1), Expression::Float("2.5".to_string()));
    match value(2) {
        Expression::FunctionCall(fc) => {
            assert_eq!(fc.name, "g");
            assert!(fc.arguments.is_empty());
        }
        other => panic!("unexpected expression {:?}", other),
    }
}

#[test]
fn loop_instruction_symbols() {
    assert_eq!(BreakOrCont::from_symbol(">"), Some(BreakOrCont::Break));
    assert_eq!(BreakOrCont::from_symbol("^"), Some(BreakOrCont::Cont));
    assert_eq!(BreakOrCont::from_symbol("<"), None);
    assert_eq!(BreakOrCont::from_symbol(""), None);
}

#[test]
fn trees_the_conversion_refuses() {
    // A statement node with nothing inside it.
    assert!(!habu::parse::check_program(&prog(vec![top(leaf(Rule::Statement, ""))])));
    // An integer literal out of the range of i64.
    let big = node(
        Rule::Declaration,
        "",
        vec![leaf(Rule::Id, "a"), bare(leaf(Rule::Integer, "99999999999999999999"))],
    );
    assert!(!habu::parse::check_program(&prog(vec![top(statement(big))])));
    // A loop instruction with an unknown symbol.
    let odd = node(Rule::LoopInst, "", vec![leaf(Rule::Other, "<")]);
    assert!(!habu::parse::check_program(&prog(vec![top(statement(odd))])));
    // A binary operator with no second operand.
    let half = node(
        Rule::Other,
        "a +",
        vec![node(Rule::BareExpr, "a +", vec![atom(leaf(Rule::Id, "a")), leaf(Rule::Other, "+")])],
    );
    let decl = node(Rule::Declaration, "", vec![leaf(Rule::Id, "x"), half]);
    assert!(!habu::parse::check_program(&prog(vec![top(statement(decl))])));
    // A binary function definition.
    let def = node(
        Rule::FunctionDefinition,
        "",
        vec![node(Rule::BinaryFunctionDefinition, "", vec![leaf(Rule::Id, "f")])],
    );
    assert!(!habu::parse::check_program(&prog(vec![top(def)])));
}

#[test]
fn trees_the_conversion_accepts() {
    let assign = node(Rule::Assignment, "x = 1", vec![leaf(Rule::Id, "x"), bare(leaf(Rule::Integer, "1"))]);
    assert!(habu::parse::check_program(&prog(vec![top(statement(assign))])));
    assert!(habu::parse::check_program(&prog(vec![])));
}
