use vstd::prelude::*;

use crate::text::{copy_text, parse_i64, spec_parse_i64};

pub use crate::dents::insert_dents;

verus! {

/// A whole program: its top-level objects, in order.
#[derive(Debug, PartialEq)]
pub struct Program {
    pub objects: Vec<TopLevelObject>,
}

#[derive(Debug, PartialEq)]
pub enum TopLevelObject {
    FunctionDefinition(FunctionDefinition),
    Statement(Statement),
}

#[derive(Debug, PartialEq)]
pub struct FunctionDefinition {
    pub name: String,
    pub parameters: Vec<String>,
    pub body: Block,
}

#[derive(Debug, PartialEq)]
pub struct Block {
    pub statements: Vec<Statement>,
}

/// The loop instruction of a `LoopInst` statement: `>` breaks, `^` continues.
#[derive(Debug, PartialEq, Eq, Structural)]
pub enum BreakOrCont {
    Break,
    Cont,
}

#[allow(inconsistent_fields)]
#[derive(Debug, PartialEq)]
pub enum Statement {
    Assignment { target: String, operator: Option<String>, value: Expression },
    Declaration { target: String, value: Option<Expression> },
    IfStatement { cond: Expression, then: Block, els: Option<Block> },
    ForStatement { var: String, iterator: Expression, body: Block },
    FunctionCall(FunctionCall),
    LoopInst { instruction: BreakOrCont, times: Option<Expression> },
}

#[derive(Debug, PartialEq)]
pub struct FunctionCall {
    pub name: String,
    pub arguments: Vec<Expression>,
}

#[derive(Debug, PartialEq)]
pub enum UnaryType {
    Before,
    After,
}

/// An expression. A floating-point literal is held as the text that the number is written
/// as in the emitted program.
#[derive(Debug, PartialEq)]
pub enum Expression {
    Identifier(String),
    FunctionCall(FunctionCall),
    String(String),
    Range { left_interval: String, left: Box<Expression>, right: Box<Expression>, right_interval: String },
    Float(String),
    Integer(i64),
    BinaryOperation { left: Box<Expression>, operator: String, right: Box<Expression> },
    UnaryOperation { base: Box<Expression>, operator: String, unary_type: UnaryType },
}

/// The loop instruction that `symbol` stands for: `>` is `Break` and `^` is `Cont`.
pub open spec fn spec_break_or_cont(symbol: Seq<char>) -> Option<BreakOrCont> {
    if symbol == ">"@ {
        Some(BreakOrCont::Break)
    } else if symbol == "^"@ {
        Some(BreakOrCont::Cont)
    } else {
        None
    }
}

impl BreakOrCont {
    /// Reads a loop instruction symbol: `>` gives `Break`, `^` gives `Cont`, anything else
    /// `None`.
    pub fn from_symbol(symbol: &str) -> (res: Option<BreakOrCont>)
        ensures
            res == spec_break_or_cont(symbol@),
    {
        if crate::text::same_text(symbol, ">") {
            Some(BreakOrCont::Break)
        } else if crate::text::same_text(symbol, "^") {
            Some(BreakOrCont::Cont)
        } else {
            None
        }
    }
}

// ---------------------------------------------------------------------------
// Parse trees
// ---------------------------------------------------------------------------

/// The grammar rules that the conversion from parse trees tells apart; `Other` stands for
/// every rule that it does not.
#[derive(Debug, Clone, Copy, PartialEq, Eq, Structural)]
pub enum Rule {
    Program,
    Statement,
    FunctionDefinition,
    NaryFunctionDefinition,
    BinaryFunctionDefinition,
    Block,
    IfStatement,
    ForLoop,
    Assignment,
    Op,
    Declaration,
    FunctionCall,
    FunctionCallStatement,
    LoopInst,
    PreOpExpr,
    SufOpExpr,
    BareExpr,
    String,
    Range,
    Grouping,
    Id,
    Integer,
    Float,
    Other,
}

/// A node of the tree that the grammar gives for a program: the rule that it matched, the
/// text that it matched, and the nodes of its inner rules in order.
#[derive(Debug)]
pub struct ParseTree {
    pub rule: Rule,
    pub text: String,
    pub children: Vec<ParseTree>,
}

pub open spec fn kids(t: ParseTree) -> Seq<ParseTree> {
    t.children@
}

// --- Which trees the conversion accepts ------------------------------------

/// Whether `t` is an expression node that the conversion accepts: a prefix-operator, a
/// suffix-operator or a bare expression around an atom, optionally followed by a binary
/// operator and a second expression.
pub open spec fn wf_expression(t: ParseTree) -> bool
    decreases t,
{
    if kids(t).len() == 0 {
        false
    } else {
        let inner = kids(t)[0];
        let p = kids(inner);
        let k: int = if inner.rule == Rule::BareExpr {
            1
        } else {
            2
        };
        let base_ok = match inner.rule {
            Rule::PreOpExpr => p.len() >= 2 && wf_atom(p[1]),
            Rule::SufOpExpr => p.len() >= 2 && wf_atom(p[0]),
            Rule::BareExpr => p.len() >= 1 && wf_atom(p[0]),
            _ => false,
        };
        base_ok && (p.len() > k ==> p.len() > k + 1 && wf_expression(p[k + 1]))
    }
}

/// Whether `t` is an expression atom that the conversion accepts.
pub open spec fn wf_atom(t: ParseTree) -> bool
    decreases t,
{
    if kids(t).len() == 0 {
        false
    } else {
        let p = kids(t)[0];
        let q = kids(p);
        match p.rule {
            Rule::FunctionCall => wf_call(p),
            Rule::String => true,
            Rule::Range => q.len() >= 4 && wf_expression(q[1]) && wf_expression(q[2]),
            Rule::Grouping => q.len() >= 1 && wf_expression(q[0]),
            Rule::Id => true,
            Rule::Integer => spec_parse_i64(p.text@) is Some,
            Rule::Float => true,
            _ => false,
        }
    }
}

/// Whether `t` is a call that the conversion accepts: a name, then optionally a node whose
/// children are the argument expressions.
pub open spec fn wf_call(t: ParseTree) -> bool
    decreases t,
{
    kids(t).len() >= 1 && (kids(t).len() >= 2 ==> wf_arguments(kids(kids(t)[1])))
}

pub open spec fn wf_arguments(ks: Seq<ParseTree>) -> bool
    decreases ks,
{
    if ks.len() == 0 {
        true
    } else {
        wf_arguments(ks.drop_last()) && wf_expression(ks.last())
    }
}

/// Whether `t` is a statement node that the conversion accepts.
pub open spec fn wf_statement(t: ParseTree) -> bool
    decreases t,
{
    if kids(t).len() == 0 {
        false
    } else {
        let inner = kids(t)[0];
        let p = kids(inner);
        match inner.rule {
            Rule::IfStatement => p.len() >= 2 && wf_expression(p[0]) && wf_block(p[1]) && (p.len()
                > 2 ==> wf_block(p[2])),
            Rule::ForLoop => p.len() >= 3 && wf_expression(p[1]) && wf_block(p[2]),
            Rule::Assignment => p.len() >= 2 && if p[1].rule == Rule::Op {
                p.len() >= 3 && wf_expression(p[2])
            } else {
                wf_expression(p[1])
            },
            Rule::Declaration => p.len() >= 1 && (p.len() >= 2 ==> wf_expression(p[1])),
            Rule::FunctionCall => wf_call(inner),
            Rule::FunctionCallStatement => wf_call(inner),
            Rule::LoopInst => p.len() >= 1 && spec_break_or_cont(p[0].text@) is Some && (p.len()
                >= 2 ==> wf_expression(p[1])),
            _ => false,
        }
    }
}

/// Whether every statement among the nodes of a block is one that the conversion accepts.
pub open spec fn wf_block(t: ParseTree) -> bool
    decreases t,
{
    wf_statements(kids(t))
}

pub open spec fn wf_statements(ks: Seq<ParseTree>) -> bool
    decreases ks,
{
    if ks.len() == 0 {
        true
    } else {
        wf_statements(ks.drop_last()) && (ks.last().rule == Rule::Statement ==> wf_statement(
            ks.last(),
        ))
    }
}

/// Whether `t` is a function definition that the conversion accepts: one with a name and any
/// number of parameters (the binary form is not supported).
pub open spec fn wf_func_def(t: ParseTree) -> bool {
    kids(t).len() >= 1 && kids(t)[0].rule == Rule::NaryFunctionDefinition && kids(kids(t)[0]).len()
        >= 1 && wf_body_items(kids(kids(t)[0]))
}

pub open spec fn wf_body_items(ks: Seq<ParseTree>) -> bool
    decreases ks.len(),
{
    if ks.len() <= 1 {
        true
    } else {
        wf_body_items(ks.drop_last()) && (ks.last().rule == Rule::Block ==> wf_block(ks.last()))
    }
}

/// Whether `t` is a top-level node that the conversion accepts: an empty node, or one around
/// a statement or a function definition.
pub open spec fn wf_tlo(t: ParseTree) -> bool {
    kids(t).len() == 0 || {
        let c = kids(t)[0];
        ||| c.rule == Rule::Statement && wf_statement(c)
        ||| c.rule == Rule::FunctionDefinition && wf_func_def(c)
    }
}

/// Whether `t` is a program node that the conversion accepts.
pub open spec fn wf_program(t: ParseTree) -> bool {
    forall|i: int| 0 <= i < kids(t).len() ==> wf_tlo(#[trigger] kids(t)[i])
}

// --- What the conversion gives -------------------------------------------

/// Whether `e` is the expression that the expression node `t` stands for. Its base is the
/// atom, wrapped in a unary operation for the prefix and suffix forms; when a binary
/// operator and a second expression follow, `e` is the binary operation of the base and the
/// second expression (so a chain of binary operators groups to the right). An operator with
/// no second expression after it gives no expression at all.
pub open spec fn expression_of(t: ParseTree, e: Expression) -> bool
    decreases t,
{
    if kids(t).len() == 0 {
        false
    } else {
        let inner = kids(t)[0];
        let p = kids(inner);
        let k: int = if inner.rule == Rule::BareExpr {
            1
        } else {
            2
        };
        if p.len() > k + 1 {
            match e {
                Expression::BinaryOperation { left, operator, right } => base_of(inner, *left)
                    && operator@ == p[k].text@ && expression_of(p[k + 1], *right),
                _ => false,
            }
        } else if p.len() == k + 1 {
            false
        } else {
            base_of(inner, e)
        }
    }
}

/// Whether `e` is the base expression of the prefix-operator, suffix-operator or bare
/// expression node `inner`.
pub open spec fn base_of(inner: ParseTree, e: Expression) -> bool
    decreases inner,
{
    let p = kids(inner);
    match inner.rule {
        Rule::PreOpExpr => p.len() >= 2 && match e {
            Expression::UnaryOperation { base, operator, unary_type } => operator@ == p[0].text@
                && unary_type == UnaryType::Before && atom_of(p[1], *base),
            _ => false,
        },
        Rule::SufOpExpr => p.len() >= 2 && match e {
            Expression::UnaryOperation { base, operator, unary_type } => operator@ == p[1].text@
                && unary_type == UnaryType::After && atom_of(p[0], *base),
            _ => false,
        },
        Rule::BareExpr => p.len() >= 1 && atom_of(p[0], e),
        _ => false,
    }
}

/// Whether `e` is the expression that the atom node `t` stands for.
pub open spec fn atom_of(t: ParseTree, e: Expression) -> bool
    decreases t,
{
    if kids(t).len() == 0 {
        false
    } else {
        let p = kids(t)[0];
        let q = kids(p);
        match p.rule {
            Rule::FunctionCall => match e {
                Expression::FunctionCall(fc) => call_of(p, fc),
                _ => false,
            },
            Rule::String => match e {
                Expression::String(s) => s@ == p.text@,
                _ => false,
            },
            Rule::Range => q.len() >= 4 && match e {
                Expression::Range { left_interval, left, right, right_interval } => left_interval@
                    == q[0].text@ && expression_of(q[1], *left) && expression_of(q[2], *right)
                    && right_interval@ == q[3].text@,
                _ => false,
            },
            Rule::Grouping => q.len() >= 1 && expression_of(q[0], e),
            Rule::Id => match e {
                Expression::Identifier(s) => s@ == p.text@,
                _ => false,
            },
            Rule::Integer => match e {
                Expression::Integer(n) => spec_parse_i64(p.text@) == Some(n as int),
                _ => false,
            },
            Rule::Float => match e {
                Expression::Float(s) => s@ == p.text@,
                _ => false,
            },
            _ => false,
        }
    }
}

/// Whether `fc` is the call that the node `t` stands for: the name is the text of its first
/// child, the arguments are the expressions of the children of its second child, if any.
pub open spec fn call_of(t: ParseTree, fc: FunctionCall) -> bool
    decreases t,
{
    kids(t).len() >= 1 && fc.name@ == kids(t)[0].text@ && if kids(t).len() >= 2 {
        arguments_of(kids(kids(t)[1]), fc.arguments@)
    } else {
        fc.arguments@.len() == 0
    }
}

/// Whether `es` are the expressions of the nodes `ks`, one for one.
pub open spec fn arguments_of(ks: Seq<ParseTree>, es: Seq<Expression>) -> bool
    decreases ks,
{
    if ks.len() == 0 {
        es.len() == 0
    } else {
        es.len() > 0 && arguments_of(ks.drop_last(), es.drop_last()) && expression_of(
            ks.last(),
            es.last(),
        )
    }
}

/// Whether `s` is the statement that the statement node `t` stands for.
pub open spec fn statement_of(t: ParseTree, s: Statement) -> bool
    decreases t,
{
    if kids(t).len() == 0 {
        false
    } else {
        let inner = kids(t)[0];
        let p = kids(inner);
        match inner.rule {
            Rule::IfStatement => p.len() >= 2 && match s {
                Statement::IfStatement { cond, then, els } => expression_of(p[0], cond)
                    && block_of(p[1], then) && if p.len() > 2 {
                    match els {
                        Some(b) => block_of(p[2], b),
                        None => false,
                    }
                } else {
                    els is None
                },
                _ => false,
            },
            Rule::ForLoop => p.len() >= 3 && match s {
                Statement::ForStatement { var, iterator, body } => var@ == p[0].text@
                    && expression_of(p[1], iterator) && block_of(p[2], body),
                _ => false,
            },
            Rule::Assignment => p.len() >= 2 && match s {
                Statement::Assignment { target, operator, value } => target@ == p[0].text@
                    && if p[1].rule == Rule::Op {
                    p.len() >= 3 && match operator {
                        Some(o) => o@ == p[1].text@,
                        None => false,
                    } && expression_of(p[2], value)
                } else {
                    operator is None && expression_of(p[1], value)
                },
                _ => false,
            },
            Rule::Declaration => p.len() >= 1 && match s {
                Statement::Declaration { target, value } => target@ == p[0].text@ && if p.len()
                    >= 2 {
                    match value {
                        Some(v) => expression_of(p[1], v),
                        None => false,
                    }
                } else {
                    value is None
                },
                _ => false,
            },
            Rule::FunctionCall => match s {
                Statement::FunctionCall(fc) => call_of(inner, fc),
                _ => false,
            },
            Rule::FunctionCallStatement => match s {
                Statement::FunctionCall(fc) => call_of(inner, fc),
                _ => false,
            },
            Rule::LoopInst => p.len() >= 1 && match s {
                Statement::LoopInst { instruction, times } => spec_break_or_cont(p[0].text@)
                    == Some(instruction) && if p.len() >= 2 {
                    match times {
                        Some(x) => expression_of(p[1], x),
                        None => false,
                    }
                } else {
                    times is None
                },
                _ => false,
            },
            _ => false,
        }
    }
}

/// Whether `b` is the block of the block node `t`: the statements of its statement
/// children, in order; its other children are left out.
pub open spec fn block_of(t: ParseTree, b: Block) -> bool
    decreases t,
{
    statements_of(kids(t), b.statements@)
}

/// Whether `ss` are the statements of the statement nodes among `ks`, in order.
pub open spec fn statements_of(ks: Seq<ParseTree>, ss: Seq<Statement>) -> bool
    decreases ks,
{
    if ks.len() == 0 {
        ss.len() == 0
    } else if ks.last().rule == Rule::Statement {
        ss.len() > 0 && statements_of(ks.drop_last(), ss.drop_last()) && statement_of(
            ks.last(),
            ss.last(),
        )
    } else {
        statements_of(ks.drop_last(), ss)
    }
}

/// The texts of the identifier nodes among `ks` after the first, in order.
pub open spec fn parameter_texts(ks: Seq<ParseTree>) -> Seq<Seq<char>>
    decreases ks.len(),
{
    if ks.len() <= 1 {
        Seq::<Seq<char>>::empty()
    } else if ks.last().rule == Rule::Id {
        parameter_texts(ks.drop_last()).push(ks.last().text@)
    } else {
        parameter_texts(ks.drop_last())
    }
}

/// Whether `b` is the block of the last block node among `ks` after the first, or the
/// empty block when there is none; the block nodes before it are converted too, so they
/// must be ones that the conversion accepts.
pub open spec fn body_of(ks: Seq<ParseTree>, b: Block) -> bool
    decreases ks.len(),
{
    if ks.len() <= 1 {
        b.statements@.len() == 0
    } else if ks.last().rule == Rule::Block {
        block_of(ks.last(), b) && wf_body_items(ks.drop_last())
    } else {
        body_of(ks.drop_last(), b)
    }
}

/// Whether `fd` is the function definition of the node `t`, whose child must be the n-ary
/// form: its name is the text of the first child of the definition, its parameters the identifiers after it, its body the
/// last block after it.
pub open spec fn func_def_of(t: ParseTree, fd: FunctionDefinition) -> bool {
    kids(t).len() >= 1 && kids(t)[0].rule == Rule::NaryFunctionDefinition && {
        let items = kids(kids(t)[0]);
        &&& items.len() >= 1
        &&& fd.name@ == items[0].text@
        &&& crate::text::views(fd.parameters@) == parameter_texts(items)
        &&& body_of(items, fd.body)
    }
}

/// Whether `o` is what the top-level node `t` gives: nothing for a node without children,
/// else the statement or function definition of its first child.
pub open spec fn tlo_of(t: ParseTree, o: Option<TopLevelObject>) -> bool {
    if kids(t).len() == 0 {
        o is None
    } else {
        let c = kids(t)[0];
        match c.rule {
            Rule::Statement => match o {
                Some(TopLevelObject::Statement(s)) => statement_of(c, s),
                _ => false,
            },
            Rule::FunctionDefinition => match o {
                Some(TopLevelObject::FunctionDefinition(fd)) => func_def_of(c, fd),
                _ => false,
            },
            _ => false,
        }
    }
}

/// Whether `os` are the top-level objects that the nodes `ks` give, in order (the nodes
/// that give nothing are skipped).
pub open spec fn objects_of(ks: Seq<ParseTree>, os: Seq<TopLevelObject>) -> bool
    decreases ks.len(),
{
    if ks.len() == 0 {
        os.len() == 0
    } else if kids(ks.last()).len() == 0 {
        objects_of(ks.drop_last(), os)
    } else {
        os.len() > 0 && objects_of(ks.drop_last(), os.drop_last()) && tlo_of(
            ks.last(),
            Some(os.last()),
        )
    }
}

/// Whether `p` is the program of the program node `t`.
pub open spec fn program_of(t: ParseTree, p: Program) -> bool {
    objects_of(kids(t), p.objects@)
}

// ---------------------------------------------------------------------------
// Telling which trees the conversion accepts
// ---------------------------------------------------------------------------

fn check_expression(t: &ParseTree) -> (res: bool)
    ensures
        res == wf_expression(*t),
    decreases t,
{
    if t.children.len() == 0 {
        return false;
    }
    let inner = &t.children[0];
    let p = &inner.children;
    let k: usize = if inner.rule == Rule::BareExpr {
        1
    } else {
        2
    };
    let base_ok = match inner.rule {
        Rule::PreOpExpr => p.len() >= 2 && check_atom(&p[1]),
        Rule::SufOpExpr => p.len() >= 2 && check_atom(&p[0]),
        Rule::BareExpr => p.len() >= 1 && check_atom(&p[0]),
        _ => false,
    };
    base_ok && (p.len() <= k || (p.len() > k + 1 && check_expression(&p[k + 1])))
}

fn check_atom(t: &ParseTree) -> (res: bool)
    ensures
        res == wf_atom(*t),
    decreases t,
{
    if t.children.len() == 0 {
        return false;
    }
    let p = &t.children[0];
    let q = &p.children;
    match p.rule {
        Rule::FunctionCall => check_call(p),
        Rule::String => true,
        Rule::Range => q.len() >= 4 && check_expression(&q[1]) && check_expression(&q[2]),
        Rule::Grouping => q.len() >= 1 && check_expression(&q[0]),
        Rule::Id => true,
        Rule::Integer => parse_i64(p.text.as_str()).is_some(),
        Rule::Float => true,
        _ => false,
    }
}

fn check_call(t: &ParseTree) -> (res: bool)
    ensures
        res == wf_call(*t),
    decreases t,
{
    if t.children.len() == 0 {
        return false;
    }
    if t.children.len() < 2 {
        return true;
    }
    let list = &t.children[1];
    let ks = &list.children;
    let mut i: usize = 0;
    while i < ks.len()
        invariant
            kids(*t).len() >= 2,
            *list == kids(*t)[1],
            ks@ == kids(kids(*t)[1]),
            i <= ks.len(),
            wf_arguments(ks@.take(i as int)),
        decreases ks.len() - i,
    {
        assert(ks@.take(i + 1).drop_last() =~= ks@.take(i as int));
        if !check_expression(&ks[i]) {
            proof {
                if wf_arguments(ks@) {
                    lemma_wf_arguments(ks@, i as int);
                }
            }
            return false;
        }
        i = i + 1;
    }
    assert(ks@.take(ks.len() as int) =~= ks@);
    true
}

fn check_statement(t: &ParseTree) -> (res: bool)
    ensures
        res == wf_statement(*t),
    decreases t,
{
    if t.children.len() == 0 {
        return false;
    }
    let inner = &t.children[0];
    let p = &inner.children;
    match inner.rule {
        Rule::IfStatement => p.len() >= 2 && check_expression(&p[0]) && check_block(&p[1]) && (
        p.len() <= 2 || check_block(&p[2])),
        Rule::ForLoop => p.len() >= 3 && check_expression(&p[1]) && check_block(&p[2]),
        Rule::Assignment => p.len() >= 2 && if p[1].rule == Rule::Op {
            p.len() >= 3 && check_expression(&p[2])
        } else {
            check_expression(&p[1])
        },
        Rule::Declaration => p.len() >= 1 && (p.len() < 2 || check_expression(&p[1])),
        Rule::FunctionCall => check_call(inner),
        Rule::FunctionCallStatement => check_call(inner),
        Rule::LoopInst => p.len() >= 1 && BreakOrCont::from_symbol(p[0].text.as_str()).is_some() && (
        p.len() < 2 || check_expression(&p[1])),
        _ => false,
    }
}

fn check_block(t: &ParseTree) -> (res: bool)
    ensures
        res == wf_block(*t),
    decreases t,
{
    let ks = &t.children;
    let mut i: usize = 0;
    while i < ks.len()
        invariant
            ks@ == kids(*t),
            i <= ks.len(),
            wf_statements(ks@.take(i as int)),
        decreases ks.len() - i,
    {
        assert(ks@.take(i + 1).drop_last() =~= ks@.take(i as int));
        if ks[i].rule == Rule::Statement && !check_statement(&ks[i]) {
            proof {
                if wf_statements(ks@) {
                    lemma_wf_statements(ks@, i as int);
                }
            }
            return false;
        }
        i = i + 1;
    }
    assert(ks@.take(ks.len() as int) =~= ks@);
    true
}

fn check_func_def(t: &ParseTree) -> (res: bool)
    ensures
        res == wf_func_def(*t),
{
    if t.children.len() == 0 || t.children[0].rule != Rule::NaryFunctionDefinition {
        return false;
    }
    let ks = &t.children[0].children;
    if ks.len() == 0 {
        return false;
    }
    let mut i: usize = 1;
    assert(ks@.take(1).len() == 1);
    while i < ks.len()
        invariant
            ks@ == kids(kids(*t)[0]),
            1 <= i <= ks.len(),
            wf_body_items(ks@.take(i as int)),
        decreases ks.len() - i,
    {
        assert(ks@.take(i + 1).drop_last() =~= ks@.take(i as int));
        if ks[i].rule == Rule::Block && !check_block(&ks[i]) {
            proof {
                if wf_body_items(ks@) {
                    lemma_wf_body_items(ks@, i as int);
                }
            }
            return false;
        }
        i = i + 1;
    }
    assert(ks@.take(ks.len() as int) =~= ks@);
    true
}

fn check_tlo(t: &ParseTree) -> (res: bool)
    ensures
        res == wf_tlo(*t),
{
    if t.children.len() == 0 {
        return true;
    }
    let c = &t.children[0];
    (c.rule == Rule::Statement && check_statement(c)) || (c.rule == Rule::FunctionDefinition
        && check_func_def(c))
}

/// Whether `program` accepts the tree `t`; on every other tree the conversion has no
/// answer.
pub fn check_program(t: &ParseTree) -> (res: bool)
    ensures
        res == wf_program(*t),
{
    let mut i: usize = 0;
    while i < t.children.len()
        invariant
            i <= t.children.len(),
            forall|j: int| 0 <= j < i ==> wf_tlo(#[trigger] kids(*t)[j]),
        decreases t.children.len() - i,
    {
        if !check_tlo(&t.children[i]) {
            assert(!wf_tlo(kids(*t)[i as int]));
            return false;
        }
        i = i + 1;
    }
    true
}

// ---------------------------------------------------------------------------
// From parse trees to programs
// ---------------------------------------------------------------------------

proof fn lemma_wf_arguments(ks: Seq<ParseTree>, i: int)
    requires
        wf_arguments(ks),
        0 <= i < ks.len(),
    ensures
        wf_expression(ks[i]),
    decreases ks.len(),
{
    if i < ks.len() - 1 {
        lemma_wf_arguments(ks.drop_last(), i);
    }
}

proof fn lemma_wf_statements(ks: Seq<ParseTree>, i: int)
    requires
        wf_statements(ks),
        0 <= i < ks.len(),
        ks[i].rule == Rule::Statement,
    ensures
        wf_statement(ks[i]),
    decreases ks.len(),
{
    if i < ks.len() - 1 {
        lemma_wf_statements(ks.drop_last(), i);
    }
}

proof fn lemma_wf_body_items_prefix(ks: Seq<ParseTree>, i: int)
    requires
        wf_body_items(ks),
        0 <= i <= ks.len(),
    ensures
        wf_body_items(ks.take(i)),
    decreases ks.len(),
{
    if i == ks.len() {
        assert(ks.take(i) =~= ks);
    } else {
        assert(ks.drop_last().take(i) =~= ks.take(i));
        lemma_wf_body_items_prefix(ks.drop_last(), i);
    }
}

proof fn lemma_wf_body_items(ks: Seq<ParseTree>, i: int)
    requires
        wf_body_items(ks),
        1 <= i < ks.len(),
        ks[i].rule == Rule::Block,
    ensures
        wf_block(ks[i]),
    decreases ks.len(),
{
    if i < ks.len() - 1 {
        lemma_wf_body_items(ks.drop_last(), i);
    }
}

fn function_call(pair: &ParseTree) -> (res: FunctionCall)
    requires
        wf_call(*pair),
    ensures
        call_of(*pair, res),
    decreases pair,
{
    let name = copy_text(&pair.children[0].text);
    let mut arguments: Vec<Expression> = Vec::new();
    if pair.children.len() >= 2 {
        let list = &pair.children[1];
        let ghost ks = kids(*list);
        let mut i: usize = 0;
        assert(ks.take(0) =~= Seq::<ParseTree>::empty());
        while i < list.children.len()
            invariant
                ks == list.children@,
                *list == kids(*pair)[1],
                wf_call(*pair),
                kids(*pair).len() >= 2,
                i <= ks.len(),
                arguments_of(ks.take(i as int), arguments@),
            decreases ks.len() - i,
        {
            proof {
                lemma_wf_arguments(ks, i as int);
            }
            let e = expression(&list.children[i]);
            let ghost before = arguments@;
            arguments.push(e);
            assert(ks.take(i + 1).drop_last() =~= ks.take(i as int));
            assert(arguments@.drop_last() =~= before);
            i = i + 1;
        }
        assert(ks.take(ks.len() as int) =~= ks);
    }
    FunctionCall { name, arguments }
}

fn expression_atom(pair: &ParseTree) -> (res: Expression)
    requires
        wf_atom(*pair),
    ensures
        atom_of(*pair, res),
    decreases pair,
{
    let pair = &pair.children[0];
    match pair.rule {
        Rule::FunctionCall => Expression::FunctionCall(function_call(pair)),
        Rule::String => Expression::String(copy_text(&pair.text)),
        Rule::Range => {
            let left_interval = copy_text(&pair.children[0].text);
            let left = Box::new(expression(&pair.children[1]));
            let right = Box::new(expression(&pair.children[2]));
            let right_interval = copy_text(&pair.children[3].text);
            Expression::Range { left_interval, left, right, right_interval }
        },
        Rule::Grouping => expression(&pair.children[0]),
        Rule::Id => Expression::Identifier(copy_text(&pair.text)),
        Rule::Integer => {
            let n = parse_i64(pair.text.as_str());
            Expression::Integer(n.unwrap())
        },
        Rule::Float => Expression::Float(copy_text(&pair.text)),
        _ => {
            assert(false);
            Expression::Integer(0)
        },
    }
}

fn expression(pair: &ParseTree) -> (res: Expression)
    requires
        wf_expression(*pair),
    ensures
        expression_of(*pair, res),
    decreases pair,
{
    let inner = &pair.children[0];
    let parts = &inner.children;
    let k: usize = if inner.rule == Rule::BareExpr {
        1
    } else {
        2
    };
    let base_expr = match inner.rule {
        Rule::PreOpExpr => {
            let operator = copy_text(&parts[0].text);
            let base = Box::new(expression_atom(&parts[1]));
            Expression::UnaryOperation { base, operator, unary_type: UnaryType::Before }
        },
        Rule::SufOpExpr => {
            let base = Box::new(expression_atom(&parts[0]));
            let operator = copy_text(&parts[1].text);
            Expression::UnaryOperation { base, operator, unary_type: UnaryType::After }
        },
        Rule::BareExpr => expression_atom(&parts[0]),
        _ => {
            assert(false);
            Expression::Integer(0)
        },
    };
    assert(base_of(*inner, base_expr));
    if parts.len() <= k {
        base_expr
    } else {
        let operator = copy_text(&parts[k].text);
        let other_operand = expression(&parts[k + 1]);
        Expression::BinaryOperation {
            left: Box::new(base_expr),
            operator,
            right: Box::new(other_operand),
        }
    }
}

fn block(pair: &ParseTree) -> (res: Block)
    requires
        wf_block(*pair),
    ensures
        block_of(*pair, res),
    decreases pair,
{
    let ghost ks = kids(*pair);
    let mut statements: Vec<Statement> = Vec::new();
    let mut i: usize = 0;
    assert(ks.take(0) =~= Seq::<ParseTree>::empty());
    while i < pair.children.len()
        invariant
            ks == pair.children@,
            wf_statements(ks),
            i <= ks.len(),
            statements_of(ks.take(i as int), statements@),
        decreases ks.len() - i,
    {
        assert(ks.take(i + 1).drop_last() =~= ks.take(i as int));
        assert(ks.take(i + 1).last() == ks[i as int]);
        if pair.children[i].rule == Rule::Statement {
            proof {
                lemma_wf_statements(ks, i as int);
            }
            let st = statement(&pair.children[i]);
            let ghost before = statements@;
            statements.push(st);
            assert(statements@.drop_last() =~= before);
        }
        i = i + 1;
    }
    assert(ks.take(ks.len() as int) =~= ks);
    Block { statements }
}

fn statement(pair: &ParseTree) -> (res: Statement)
    requires
        wf_statement(*pair),
    ensures
        statement_of(*pair, res),
    decreases pair,
{
    let inner = &pair.children[0];
    let parts = &inner.children;
    match inner.rule {
        Rule::IfStatement => {
            let cond = expression(&parts[0]);
            let then = block(&parts[1]);
            let els = if parts.len() > 2 {
                Some(block(&parts[2]))
            } else {
                None
            };
            Statement::IfStatement { cond, then, els }
        },
        Rule::ForLoop => {
            let var = copy_text(&parts[0].text);
            let iterator = expression(&parts[1]);
            let body = block(&parts[2]);
            Statement::ForStatement { var, iterator, body }
        },
        Rule::Assignment => {
            let target = copy_text(&parts[0].text);
            if parts[1].rule == Rule::Op {
                let operator = Some(copy_text(&parts[1].text));
                let value = expression(&parts[2]);
                Statement::Assignment { target, operator, value }
            } else {
                let value = expression(&parts[1]);
                Statement::Assignment { target, operator: None, value }
            }
        },
        Rule::Declaration => {
            let target = copy_text(&parts[0].text);
            let value = if parts.len() >= 2 {
                Some(expression(&parts[1]))
            } else {
                None
            };
            Statement::Declaration { target, value }
        },
        Rule::FunctionCall => Statement::FunctionCall(function_call(inner)),
        Rule::FunctionCallStatement => Statement::FunctionCall(function_call(inner)),
        Rule::LoopInst => {
            let instruction = BreakOrCont::from_symbol(parts[0].text.as_str()).unwrap();
            let times = if parts.len() >= 2 {
                Some(expression(&parts[1]))
            } else {
                None
            };
            Statement::LoopInst { instruction, times }
        },
        _ => {
            assert(false);
            Statement::LoopInst { instruction: BreakOrCont::Break, times: None }
        },
    }
}

fn func_def(pair: &ParseTree) -> (res: FunctionDefinition)
    requires
        wf_func_def(*pair),
    ensures
        func_def_of(*pair, res),
{
    let inner = &pair.children[0];
    let items = &inner.children;
    let ghost ks = kids(*inner);
    let name = copy_text(&items[0].text);
    let mut parameters: Vec<String> = Vec::new();
    let mut body = Block { statements: Vec::new() };
    let mut i: usize = 1;
    assert(crate::text::views(parameters@) =~= parameter_texts(ks.take(1)));
    while i < items.len()
        invariant
            ks == items@,
            ks.len() >= 1,
            wf_body_items(ks),
            1 <= i <= ks.len(),
            crate::text::views(parameters@) == parameter_texts(ks.take(i as int)),
            body_of(ks.take(i as int), body),
            wf_body_items(ks.take(i as int)),
        decreases ks.len() - i,
    {
        assert(ks.take(i + 1).drop_last() =~= ks.take(i as int));
        assert(ks.take(i + 1).last() == ks[i as int]);
        proof {
            lemma_wf_body_items_prefix(ks, i + 1);
        }
        if items[i].rule == Rule::Id {
            let ghost before = parameters@;
            parameters.push(copy_text(&items[i].text));
            assert(crate::text::views(parameters@) =~= crate::text::views(before).push(
                ks[i as int].text@,
            ));
        } else if items[i].rule == Rule::Block {
            proof {
                lemma_wf_body_items(ks, i as int);
            }
            body = block(&items[i]);
        }
        i = i + 1;
    }
    assert(ks.take(ks.len() as int) =~= ks);
    FunctionDefinition { name, parameters, body }
}

fn tlo(pair: &ParseTree) -> (res: Option<TopLevelObject>)
    requires
        wf_tlo(*pair),
    ensures
        tlo_of(*pair, res),
{
    if pair.children.len() > 0 {
        let inner = &pair.children[0];
        match inner.rule {
            Rule::Statement => Some(TopLevelObject::Statement(statement(inner))),
            Rule::FunctionDefinition => Some(TopLevelObject::FunctionDefinition(func_def(inner))),
            _ => {
                assert(false);
                None
            },
        }
    } else {
        None
    }
}

/// The program of a program node: the top-level objects of its children, in order, leaving
/// out the children that have no children of their own.
pub fn program(pair: &ParseTree) -> (res: Program)
    requires
        wf_program(*pair),
    ensures
        program_of(*pair, res),
{
    let ghost ks = kids(*pair);
    let mut objects: Vec<TopLevelObject> = Vec::new();
    let mut i: usize = 0;
    assert(ks.take(0) =~= Seq::<ParseTree>::empty());
    while i < pair.children.len()
        invariant
            ks == pair.children@,
            wf_program(*pair),
            i <= ks.len(),
            objects_of(ks.take(i as int), objects@),
        decreases ks.len() - i,
    {
        assert(ks.take(i + 1).drop_last() =~= ks.take(i as int));
        assert(ks.take(i + 1).last() == ks[i as int]);
        assert(wf_tlo(kids(*pair)[i as int]));
        if let Some(object) = tlo(&pair.children[i]) {
            let ghost before = objects@;
            objects.push(object);
            assert(objects@.drop_last() =~= before);
        }
        i = i + 1;
    }
    assert(ks.take(ks.len() as int) =~= ks);
    Program { objects }
}

// ---------------------------------------------------------------------------
// Laws of the conversion
// ---------------------------------------------------------------------------

proof fn lemma_expression_accepted(t: ParseTree, e: Expression)
    requires
        expression_of(t, e),
    ensures
        wf_expression(t),
    decreases t,
{
    let inner = kids(t)[0];
    let p = kids(inner);
    let k: int = if inner.rule == Rule::BareExpr {
        1
    } else {
        2
    };
    if p.len() > k + 1 {
        match e {
            Expression::BinaryOperation { left, operator, right } => {
                lemma_base_accepted(inner, *left);
                lemma_expression_accepted(p[k + 1], *right);
            },
            _ => {},
        }
    } else {
        lemma_base_accepted(inner, e);
    }
}

proof fn lemma_base_accepted(inner: ParseTree, e: Expression)
    requires
        base_of(inner, e),
    ensures
        match inner.rule {
            Rule::PreOpExpr => kids(inner).len() >= 2 && wf_atom(kids(inner)[1]),
            Rule::SufOpExpr => kids(inner).len() >= 2 && wf_atom(kids(inner)[0]),
            Rule::BareExpr => kids(inner).len() >= 1 && wf_atom(kids(inner)[0]),
            _ => false,
        },
    decreases inner,
{
    let p = kids(inner);
    match inner.rule {
        Rule::PreOpExpr => match e {
            Expression::UnaryOperation { base, .. } => lemma_atom_accepted(p[1], *base),
            _ => {},
        },
        Rule::SufOpExpr => match e {
            Expression::UnaryOperation { base, .. } => lemma_atom_accepted(p[0], *base),
            _ => {},
        },
        Rule::BareExpr => lemma_atom_accepted(p[0], e),
        _ => {},
    }
}

proof fn lemma_atom_accepted(t: ParseTree, e: Expression)
    requires
        atom_of(t, e),
    ensures
        wf_atom(t),
    decreases t,
{
    let p = kids(t)[0];
    let q = kids(p);
    match p.rule {
        Rule::FunctionCall => match e {
            Expression::FunctionCall(fc) => lemma_call_accepted(p, fc),
            _ => {},
        },
        Rule::Range => match e {
            Expression::Range { left, right, .. } => {
                lemma_expression_accepted(q[1], *left);
                lemma_expression_accepted(q[2], *right);
            },
            _ => {},
        },
        Rule::Grouping => lemma_expression_accepted(q[0], e),
        _ => {},
    }
}

proof fn lemma_call_accepted(t: ParseTree, fc: FunctionCall)
    requires
        call_of(t, fc),
    ensures
        wf_call(t),
    decreases t,
{
    if kids(t).len() >= 2 {
        lemma_arguments_accepted(kids(kids(t)[1]), fc.arguments@);
    }
}

proof fn lemma_arguments_accepted(ks: Seq<ParseTree>, es: Seq<Expression>)
    requires
        arguments_of(ks, es),
    ensures
        wf_arguments(ks),
    decreases ks,
{
    if ks.len() > 0 {
        lemma_arguments_accepted(ks.drop_last(), es.drop_last());
        lemma_expression_accepted(ks.last(), es.last());
    }
}

proof fn lemma_statement_accepted(t: ParseTree, s: Statement)
    requires
        statement_of(t, s),
    ensures
        wf_statement(t),
    decreases t,
{
    let inner = kids(t)[0];
    let p = kids(inner);
    match inner.rule {
        Rule::IfStatement => match s {
            Statement::IfStatement { cond, then, els } => {
                lemma_expression_accepted(p[0], cond);
                lemma_block_accepted(p[1], then);
                if p.len() > 2 {
                    match els {
                        Some(b) => lemma_block_accepted(p[2], b),
                        None => {},
                    }
                }
            },
            _ => {},
        },
        Rule::ForLoop => match s {
            Statement::ForStatement { iterator, body, .. } => {
                lemma_expression_accepted(p[1], iterator);
                lemma_block_accepted(p[2], body);
            },
            _ => {},
        },
        Rule::Assignment => match s {
            Statement::Assignment { value, .. } => {
                if p[1].rule == Rule::Op {
                    lemma_expression_accepted(p[2], value);
                } else {
                    lemma_expression_accepted(p[1], value);
                }
            },
            _ => {},
        },
        Rule::Declaration => match s {
            Statement::Declaration { value, .. } => {
                if p.len() >= 2 {
                    match value {
                        Some(v) => lemma_expression_accepted(p[1], v),
                        None => {},
                    }
                }
            },
            _ => {},
        },
        Rule::FunctionCall => match s {
            Statement::FunctionCall(fc) => lemma_call_accepted(inner, fc),
            _ => {},
        },
        Rule::FunctionCallStatement => match s {
            Statement::FunctionCall(fc) => lemma_call_accepted(inner, fc),
            _ => {},
        },
        Rule::LoopInst => match s {
            Statement::LoopInst { times, .. } => {
                if p.len() >= 2 {
                    match times {
                        Some(x) => lemma_expression_accepted(p[1], x),
                        None => {},
                    }
                }
            },
            _ => {},
        },
        _ => {},
    }
}

proof fn lemma_block_accepted(t: ParseTree, b: Block)
    requires
        block_of(t, b),
    ensures
        wf_block(t),
    decreases t,
{
    lemma_statements_accepted(kids(t), b.statements@);
}

proof fn lemma_statements_accepted(ks: Seq<ParseTree>, ss: Seq<Statement>)
    requires
        statements_of(ks, ss),
    ensures
        wf_statements(ks),
    decreases ks,
{
    if ks.len() > 0 {
        if ks.last().rule == Rule::Statement {
            lemma_statements_accepted(ks.drop_last(), ss.drop_last());
            lemma_statement_accepted(ks.last(), ss.last());
        } else {
            lemma_statements_accepted(ks.drop_last(), ss);
        }
    }
}

proof fn lemma_body_accepted(ks: Seq<ParseTree>, b: Block)
    requires
        body_of(ks, b),
    ensures
        wf_body_items(ks),
    decreases ks.len(),
{
    if ks.len() > 1 {
        if ks.last().rule == Rule::Block {
            lemma_block_accepted(ks.last(), b);
        } else {
            lemma_body_accepted(ks.drop_last(), b);
        }
    }
}

proof fn lemma_objects_accepted(ks: Seq<ParseTree>, os: Seq<TopLevelObject>)
    requires
        objects_of(ks, os),
    ensures
        forall|i: int| 0 <= i < ks.len() ==> wf_tlo(#[trigger] ks[i]),
    decreases ks.len(),
{
    if ks.len() > 0 {
        let last = ks.last();
        if kids(last).len() == 0 {
            lemma_objects_accepted(ks.drop_last(), os);
        } else {
            lemma_objects_accepted(ks.drop_last(), os.drop_last());
            let c = kids(last)[0];
            match c.rule {
                Rule::Statement => match os.last() {
                    TopLevelObject::Statement(s) => lemma_statement_accepted(c, s),
                    _ => {},
                },
                Rule::FunctionDefinition => match os.last() {
                    TopLevelObject::FunctionDefinition(fd) => lemma_body_accepted(
                        kids(kids(c)[0]),
                        fd.body,
                    ),
                    _ => {},
                },
                _ => {},
            }
        }
        assert forall|i: int| 0 <= i < ks.len() implies wf_tlo(#[trigger] ks[i]) by {
            if i < ks.len() - 1 {
                assert(ks[i] == ks.drop_last()[i]);
            }
        }
    }
}

/// Acceptance matches the conversion: every statement node that the conversion gives a
/// statement for is one that `check_program` accepts, an `if` with or without its `else`
/// alike.
pub proof fn law_converted_statements_are_accepted(t: ParseTree, s: Statement)
    requires
        statement_of(t, s),
    ensures
        wf_statement(t),
{
    lemma_statement_accepted(t, s);
}

/// Acceptance matches the conversion: every program tree that the conversion gives a
/// program for is one that `check_program` accepts (and `program` converts every tree that
/// it accepts).
pub proof fn law_converted_programs_are_accepted(t: ParseTree, p: Program)
    requires
        program_of(t, p),
    ensures
        wf_program(t),
{
    lemma_objects_accepted(kids(t), p.objects@);
}

/// No part of an expression is dropped: whatever the form of an expression node (prefix
/// operator, suffix operator or bare atom), when a binary operator follows its base the
/// expression is a binary operation whose operator is that operator's text and whose right
/// operand is the expression of the node after it.
pub proof fn law_binary_operand_kept(t: ParseTree, e: Expression)
    requires
        expression_of(t, e),
        ({
            let inner = kids(t)[0];
            let k: int = if inner.rule == Rule::BareExpr {
                1
            } else {
                2
            };
            kids(inner).len() > k
        }),
    ensures
        ({
            let inner = kids(t)[0];
            let p = kids(inner);
            let k: int = if inner.rule == Rule::BareExpr {
                1
            } else {
                2
            };
            &&& p.len() > k + 1
            &&& match e {
                Expression::BinaryOperation { left, operator, right } => operator@ == p[k].text@
                    && base_of(inner, *left) && expression_of(p[k + 1], *right),
                _ => false,
            }
        }),
{
}

} // verus!
