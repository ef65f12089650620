use vstd::prelude::*;

use crate::parse::{
    atom_of, kids, Block, BreakOrCont, Expression, FunctionCall, ParseTree, Program, Rule, Statement,
    TopLevelObject, UnaryType,
};
use crate::text::{
    copy_text, decimal, integer_text, join_seqs, join_text, law_integer_text_round_trip, same_text,
    spaces, spec_parse_i64, views,
};

verus! {

// ---------------------------------------------------------------------------
// What the emitter writes
// ---------------------------------------------------------------------------

/// The operators that are written otherwise in Python, each with what it becomes.
pub open spec fn operator_table() -> Seq<(Seq<char>, Seq<char>)> {
    seq![
        ("=?"@, "=="@),
        ("=/"@, "!="@),
        (">_"@, ">="@),
        ("<_"@, "<="@),
        ("&|"@, "^"@),
        ("|&"@, "^"@),
        ("^"@, "**"@),
    ]
}

/// What the first entry of `table` for `op` gives, or `op` itself when there is none.
pub open spec fn table_lookup(table: Seq<(Seq<char>, Seq<char>)>, op: Seq<char>) -> Seq<char>
    decreases table.len(),
{
    if table.len() == 0 {
        op
    } else if table[0].0 == op {
        table[0].1
    } else {
        table_lookup(table.drop_first(), op)
    }
}

/// The Python spelling of the operator `op`.
pub open spec fn spec_operator(op: Seq<char>) -> Seq<char> {
    table_lookup(operator_table(), op)
}

/// Four spaces for each of `level` levels.
pub open spec fn pad(level: nat) -> Seq<char> {
    Seq::new(level * 4, |i: int| ' ')
}

/// The lines, each indented to `level` and ended by a newline.
pub open spec fn spec_indented(lines: Seq<Seq<char>>, level: nat) -> Seq<char>
    decreases lines.len(),
{
    if lines.len() == 0 {
        Seq::<char>::empty()
    } else {
        spec_indented(lines.drop_last(), level) + pad(level) + lines.last() + "\n"@
    }
}

/// The lines of the class that holds the loop state.
pub open spec fn header_lines() -> Seq<Seq<char>> {
    seq!["class Loop:"@, "    continue_flag = False"@, "    semaphore = 0"@]
}

/// The lines at the top of every loop body that carry out pending breaks and continues.
pub open spec fn loop_guard_lines() -> Seq<Seq<char>> {
    seq![
        "if Loop.semaphore > 0:"@,
        "    Loop.semaphore -= 1"@,
        "    if Loop.semaphore == 0 and Loop.continue_flag:"@,
        "        Loop.continue_flag = False"@,
        "        continue"@,
        "    break"@,
    ]
}

/// The Python text of an expression.
pub open spec fn spec_expression(e: Expression) -> Seq<char>
    decreases e,
{
    match e {
        Expression::Identifier(id) => id@,
        Expression::FunctionCall(fc) => fc.name@ + "("@ + spec_arguments(fc.arguments@) + ")"@,
        Expression::String(s) => s@,
        Expression::Range { left_interval, left, right, right_interval } => {
            let l = if left_interval@ == "["@ {
                "-("@ + spec_expression(*left) + "//-1)"@
            } else {
                "int("@ + spec_expression(*left) + ")+1"@
            };
            let r = if right_interval@ == "]"@ {
                "int("@ + spec_expression(*right) + ")+1"@
            } else {
                "-("@ + spec_expression(*right) + "//-1)"@
            };
            "range("@ + l + ", "@ + r + ")"@
        },
        Expression::Float(text) => text@,
        Expression::Integer(n) => decimal(n as int),
        Expression::BinaryOperation { left, operator, right } => spec_expression(*left) + " "@
            + spec_operator(operator@) + " "@ + spec_expression(*right),
        Expression::UnaryOperation { base, operator, unary_type } => match unary_type {
            UnaryType::Before => spec_operator(operator@) + spec_expression(*base),
            UnaryType::After => spec_expression(*base) + spec_operator(operator@),
        },
    }
}

/// The Python text of the arguments of a call, separated by `", "`.
pub open spec fn spec_arguments(args: Seq<Expression>) -> Seq<char>
    decreases args,
{
    if args.len() == 0 {
        Seq::<char>::empty()
    } else if args.len() == 1 {
        spec_expression(args[0])
    } else {
        spec_arguments(args.drop_last()) + ", "@ + spec_expression(args.last())
    }
}

/// The Python text of a call.
pub open spec fn spec_function_call(fc: FunctionCall) -> Seq<char> {
    fc.name@ + "("@ + spec_arguments(fc.arguments@) + ")"@
}

/// The Python text of a statement at indentation `level` (the text of its first line is not
/// indented; the lines of its blocks are).
pub open spec fn spec_statement(level: nat, s: Statement) -> Seq<char>
    decreases s,
{
    match s {
        Statement::Assignment { target, operator, value } => match operator {
            Some(op) => target@ + " = "@ + target@ + " "@ + spec_operator(op@) + " "@
                + spec_expression(value),
            None => target@ + " = "@ + spec_expression(value),
        },
        Statement::Declaration { target, value } => match value {
            Some(v) => "let "@ + target@ + " = "@ + spec_expression(v),
            None => "let "@ + target@,
        },
        Statement::IfStatement { cond, then, els } => match els {
            Some(e) => "if "@ + spec_expression(cond) + ":\n"@ + spec_block(level, then) + pad(level)
                + "else:\n"@ + spec_block(level, e),
            None => "if "@ + spec_expression(cond) + ":\n"@ + spec_block(level, then),
        },
        Statement::ForStatement { var, iterator, body } => "for "@ + var@ + " in "@
            + spec_expression(iterator) + ":\n"@ + spec_indented(loop_guard_lines(), level + 1)
            + spec_block(level, body),
        Statement::FunctionCall(fc) => spec_function_call(fc),
        Statement::LoopInst { instruction, times } => {
            let count = match times {
                Some(t) => spec_expression(t),
                None => "1"@,
            };
            let flag = match instruction {
                BreakOrCont::Cont => ";Loop.continue_flag = True"@,
                BreakOrCont::Break => Seq::<char>::empty(),
            };
            "Loop.semaphore = "@ + count + flag + ";continue"@
        },
    }
}

/// The Python text of a block whose owner stands at indentation `level`: each statement on
/// lines of its own, one level deeper.
pub open spec fn spec_block(level: nat, b: Block) -> Seq<char>
    decreases b,
{
    spec_statements(level + 1, b.statements@)
}

/// The statements at indentation `level`, each on lines of its own.
pub open spec fn spec_statements(level: nat, ss: Seq<Statement>) -> Seq<char>
    decreases ss,
{
    if ss.len() == 0 {
        Seq::<char>::empty()
    } else {
        spec_statements(level, ss.drop_last()) + pad(level) + spec_statement(level, ss.last())
            + "\n"@
    }
}

/// The Python text of a top-level object at indentation `level`.
pub open spec fn spec_top_level(level: nat, t: TopLevelObject) -> Seq<char> {
    match t {
        TopLevelObject::FunctionDefinition(fd) => "def "@ + fd.name@ + "("@ + join_seqs(
            views(fd.parameters@),
            ", "@,
        ) + "):\n"@ + spec_block(level, fd.body),
        TopLevelObject::Statement(s) => spec_statement(level, s),
    }
}

/// The top-level objects, each followed by a newline.
pub open spec fn spec_top_levels(level: nat, ts: Seq<TopLevelObject>) -> Seq<char>
    decreases ts.len(),
{
    if ts.len() == 0 {
        Seq::<char>::empty()
    } else {
        spec_top_levels(level, ts.drop_last()) + spec_top_level(level, ts.last()) + "\n"@
    }
}

/// The Python program that the emitter writes for `p` at indentation `level`: the class
/// that holds the loop state, then each top-level object followed by a newline.
pub open spec fn spec_emit(level: nat, p: Program) -> Seq<char> {
    spec_indented(header_lines(), level) + spec_top_levels(level, p.objects@)
}

// ---------------------------------------------------------------------------
// How deep the emitted text is indented
// ---------------------------------------------------------------------------

/// How many levels deeper than its own the text of a statement is indented.
pub open spec fn statement_depth(s: Statement) -> nat
    decreases s,
{
    match s {
        Statement::IfStatement { then, els, .. } => match els {
            Some(e) => {
                let a = block_depth(then);
                let b = block_depth(e);
                if a >= b {
                    a
                } else {
                    b
                }
            },
            None => block_depth(then),
        },
        Statement::ForStatement { body, .. } => block_depth(body),
        _ => 0,
    }
}

/// How many levels deeper than its owner's the text of a block is indented.
pub open spec fn block_depth(b: Block) -> nat
    decreases b,
{
    1 + statements_depth(b.statements@)
}

/// The greatest depth of the statements.
pub open spec fn statements_depth(ss: Seq<Statement>) -> nat
    decreases ss,
{
    if ss.len() == 0 {
        0
    } else {
        let a = statements_depth(ss.drop_last());
        let b = statement_depth(ss.last());
        if a >= b {
            a
        } else {
            b
        }
    }
}

/// The greatest depth of the top-level objects of a program.
pub open spec fn top_levels_depth(ts: Seq<TopLevelObject>) -> nat
    decreases ts.len(),
{
    if ts.len() == 0 {
        0
    } else {
        let a = top_levels_depth(ts.drop_last());
        let b = match ts.last() {
            TopLevelObject::FunctionDefinition(fd) => block_depth(fd.body),
            TopLevelObject::Statement(s) => statement_depth(s),
        };
        if a >= b {
            a
        } else {
            b
        }
    }
}

/// Whether text indented `depth` levels deeper than `level` can be written: its spaces must
/// be counted by a `usize`.
pub open spec fn fits(level: nat, depth: nat) -> bool {
    (level + depth) * 4 <= usize::MAX
}

/// The views of the `(from, to)` pairs of an operator table.
pub open spec fn table_views(v: Seq<(String, String)>) -> Seq<(Seq<char>, Seq<char>)> {
    v.map_values(|p: (String, String)| (p.0@, p.1@))
}

/// The views of a sequence of string slices.
pub open spec fn str_views(v: Seq<&str>) -> Seq<Seq<char>> {
    v.map_values(|l: &str| l@)
}

// ---------------------------------------------------------------------------
// Laws of the emitted text
// ---------------------------------------------------------------------------

/// Operator spelling: each operator of the table is written as the table says (so no
/// operator appears in it twice with two spellings), and every other operator is written
/// as it is.
pub proof fn law_operator_spelling(op: Seq<char>)
    ensures
        forall|i: int|
            0 <= i < operator_table().len() ==> spec_operator(#[trigger] operator_table()[i].0)
                == operator_table()[i].1,
        (forall|i: int| 0 <= i < operator_table().len() ==> operator_table()[i].0 != op)
            ==> spec_operator(op) == op,
{
    reveal_strlit("=?");
    reveal_strlit("=/");
    reveal_strlit(">_");
    reveal_strlit("<_");
    reveal_strlit("&|");
    reveal_strlit("|&");
    reveal_strlit("^");
    reveal_with_fuel(table_lookup, 8);
    let t = operator_table();
    assert(t[0].0[0] == '=' && t[0].0[1] == '?');
    assert(t[1].0[0] == '=' && t[1].0[1] == '/');
    assert(t[2].0[0] == '>' && t[2].0[1] == '_');
    assert(t[3].0[0] == '<' && t[3].0[1] == '_');
    assert(t[4].0[0] == '&' && t[4].0[1] == '|');
    assert(t[5].0[0] == '|' && t[5].0[1] == '&');
    assert(spec_operator(t[0].0) == t[0].1);
    assert(spec_operator(t[1].0) == t[1].1);
    assert(spec_operator(t[2].0) == t[2].1);
    assert(spec_operator(t[3].0) == t[3].1);
    assert(spec_operator(t[4].0) == t[4].1);
    assert(spec_operator(t[5].0) == t[5].1);
    assert(spec_operator(t[6].0) == t[6].1);
    assert forall|i: int| 0 <= i < t.len() implies spec_operator(#[trigger] t[i].0) == t[i].1 by {
        assert(i == 0 || i == 1 || i == 2 || i == 3 || i == 4 || i == 5 || i == 6);
    }
    if forall|i: int| 0 <= i < t.len() ==> t[i].0 != op {
        assert(t[0].0 != op);
        assert(t[1].0 != op);
        assert(t[2].0 != op);
        assert(t[3].0 != op);
        assert(t[4].0 != op);
        assert(t[5].0 != op);
        assert(t[6].0 != op);
    }
}

/// Every program that the emitter writes opens with the class that holds the loop state.
pub proof fn law_emit_opens_with_loop_class(level: nat, p: Program)
    ensures
        spec_indented(header_lines(), level).is_prefix_of(spec_emit(level, p)),
{
    let h = spec_indented(header_lines(), level);
    assert(spec_emit(level, p).subrange(0, h.len() as int) =~= h);
}

/// Names, strings and floating-point literals are written as the program text has them.
pub proof fn law_literals_written_as_read(t: ParseTree, e: Expression)
    requires
        atom_of(t, e),
        kids(t).len() > 0,
        kids(t)[0].rule == Rule::Id || kids(t)[0].rule == Rule::String || kids(t)[0].rule
            == Rule::Float,
    ensures
        spec_expression(e) == kids(t)[0].text@,
{
}

/// Integer literals are written as the number that they denote; an integer that the
/// program text writes in the emitter's own form (as `i64::to_string` writes it) comes out
/// exactly as it went in.
pub proof fn law_integers_written_as_read(t: ParseTree, e: Expression, n: i64)
    requires
        atom_of(t, e),
        kids(t).len() > 0,
        kids(t)[0].rule == Rule::Integer,
    ensures
        spec_parse_i64(kids(t)[0].text@) matches Some(v) && spec_expression(e) == decimal(v),
        kids(t)[0].text@ == decimal(n as int) ==> spec_expression(e) == kids(t)[0].text@,
{
    law_integer_text_round_trip(n);
}

/// Else lines line up with their `if`: at every indentation level `level`, an `if` with an
/// `else` is written as the `if` alone, then the `else:` line indented by the same
/// `4 * level` spaces as the line of the `if` itself, then the else block.
pub proof fn law_else_indented_like_if(level: nat, cond: Expression, then: Block, els: Block)
    ensures
        spec_statement(level, Statement::IfStatement { cond: cond, then: then, els: Some(els) })
            == spec_statement(level, Statement::IfStatement { cond: cond, then: then, els: None })
            + Seq::new(level * 4, |i: int| ' ') + "else:\n"@ + spec_block(level, els),
        spec_statement(level, Statement::IfStatement { cond: cond, then: then, els: Some(els) })
            == "if "@ + spec_expression(cond) + ":\n"@ + spec_block(level, then) + Seq::new(
            level * 4,
            |i: int| ' ',
        ) + "else:\n"@ + spec_block(level, els),
{
    assert(pad(level) =~= Seq::new(level * 4, |i: int| ' '));
}

/// Blocks are written line by line: an empty block is written as nothing, and adding a
/// statement at the end of a block at level `level` adds exactly that statement's text,
/// indented by `4 * (level + 1)` spaces and ended by a newline, after the text of the other
/// statements, whatever its position.
pub proof fn law_block_lines(level: nat, b1: Block, b2: Block, s: Statement)
    requires
        b2.statements@ == b1.statements@.push(s),
    ensures
        b1.statements@.len() == 0 ==> spec_block(level, b1) == Seq::<char>::empty(),
        spec_block(level, b2) == spec_block(level, b1) + Seq::new((level + 1) * 4, |i: int| ' ')
            + spec_statement(level + 1, s) + "\n"@,
{
    assert(b2.statements@.drop_last() =~= b1.statements@);
    assert(pad(level + 1) =~= Seq::new((level + 1) * 4, |i: int| ' '));
}

/// A continue is a break that also sets the continue flag: for every count (given or not),
/// the text of a continue is the text of the break with the same count, with
/// `;Loop.continue_flag = True` put before its closing `;continue`; so the two never give the
/// same text. The count is written after `Loop.semaphore = `, and without a count it is 1.
pub proof fn law_continue_sets_the_flag(level: nat, times: Option<Expression>)
    ensures
        ({
            let b = spec_statement(
                level,
                Statement::LoopInst { instruction: BreakOrCont::Break, times: times },
            );
            let c = spec_statement(
                level,
                Statement::LoopInst { instruction: BreakOrCont::Cont, times: times },
            );
            &&& b.len() >= 9
            &&& b.subrange(b.len() - 9, b.len() as int) == ";continue"@
            &&& c == b.subrange(0, b.len() - 9) + ";Loop.continue_flag = True;continue"@
            &&& b != c
            &&& times is None ==> b == "Loop.semaphore = 1;continue"@
            &&& times matches Some(t) ==> b == "Loop.semaphore = "@ + spec_expression(t)
                + ";continue"@
        }),
{
    reveal_strlit(";continue");
    reveal_strlit(";Loop.continue_flag = True");
    reveal_strlit(";Loop.continue_flag = True;continue");
    reveal_strlit("Loop.semaphore = ");
    reveal_strlit("1");
    reveal_strlit("Loop.semaphore = 1;continue");
    let count = match times {
        Some(t) => spec_expression(t),
        None => "1"@,
    };
    let pre = "Loop.semaphore = "@ + count;
    let b = spec_statement(level, Statement::LoopInst { instruction: BreakOrCont::Break, times: times });
    let c = spec_statement(level, Statement::LoopInst { instruction: BreakOrCont::Cont, times: times });
    assert(b =~= pre + Seq::<char>::empty() + ";continue"@);
    assert(c =~= pre + ";Loop.continue_flag = True"@ + ";continue"@);
    assert(b.subrange(0, b.len() - 9) =~= pre);
    assert(b.subrange(b.len() - 9, b.len() as int) =~= ";continue"@);
    assert(c =~= b.subrange(0, b.len() - 9) + ";Loop.continue_flag = True;continue"@);
    assert(b.len() != c.len());
    if times is None {
        assert(b =~= "Loop.semaphore = 1;continue"@);
    }
    if let Some(t) = times {
        assert(b =~= "Loop.semaphore = "@ + spec_expression(t) + ";continue"@);
    }
}

// ---------------------------------------------------------------------------
// The emitter
// ---------------------------------------------------------------------------

/// Writes a program as Python text. It holds the operator table and the indentation level
/// at which it is writing.
pub struct Emitter {
    operator_map: Vec<(String, String)>,
    level: usize,
}

fn owned(s: &str) -> (res: String)
    ensures
        res@ == s@,
{
    let mut res = String::new();
    res.append(s);
    res
}

proof fn lemma_statements_depth(ss: Seq<Statement>, i: int)
    requires
        0 <= i < ss.len(),
    ensures
        statement_depth(ss[i]) <= statements_depth(ss),
    decreases ss.len(),
{
    if i < ss.len() - 1 {
        lemma_statements_depth(ss.drop_last(), i);
    }
}

proof fn lemma_top_levels_depth(ts: Seq<TopLevelObject>, i: int)
    requires
        0 <= i < ts.len(),
    ensures
        match ts[i] {
            TopLevelObject::FunctionDefinition(fd) => block_depth(fd.body),
            TopLevelObject::Statement(s) => statement_depth(s),
        } <= top_levels_depth(ts),
    decreases ts.len(),
{
    if i < ts.len() - 1 {
        lemma_top_levels_depth(ts.drop_last(), i);
    }
}

pub open spec fn min_nat(a: nat, b: nat) -> nat {
    if a <= b {
        a
    } else {
        b
    }
}

fn statement_depth_capped(s: &Statement, cap: usize) -> (res: usize)
    ensures
        res == min_nat(statement_depth(*s), cap as nat),
    decreases s,
{
    match s {
        Statement::IfStatement { then, els, .. } => {
            let a = block_depth_capped(then, cap);
            match els {
                Some(e) => {
                    let b = block_depth_capped(e, cap);
                    if a >= b {
                        a
                    } else {
                        b
                    }
                },
                None => a,
            }
        },
        Statement::ForStatement { body, .. } => block_depth_capped(body, cap),
        _ => 0,
    }
}

fn block_depth_capped(b: &Block, cap: usize) -> (res: usize)
    ensures
        res == min_nat(block_depth(*b), cap as nat),
    decreases b,
{
    if cap == 0 {
        0
    } else {
        1 + statements_depth_capped(&b.statements, cap - 1)
    }
}

fn statements_depth_capped(ss: &Vec<Statement>, cap: usize) -> (res: usize)
    ensures
        res == min_nat(statements_depth(ss@), cap as nat),
    decreases ss,
{
    let mut d: usize = 0;
    let mut i: usize = 0;
    assert(ss@.take(0) =~= Seq::<Statement>::empty());
    while i < ss.len()
        invariant
            i <= ss.len(),
            d == min_nat(statements_depth(ss@.take(i as int)), cap as nat),
        decreases ss.len() - i,
    {
        assert(ss@.take(i + 1).drop_last() =~= ss@.take(i as int));
        assert(ss@.take(i + 1).last() == ss@[i as int]);
        let e = statement_depth_capped(&ss[i], cap);
        if e > d {
            d = e;
        }
        i = i + 1;
    }
    assert(ss@.take(ss.len() as int) =~= ss@);
    d
}

fn top_levels_depth_capped(ts: &Vec<TopLevelObject>, cap: usize) -> (res: usize)
    ensures
        res == min_nat(top_levels_depth(ts@), cap as nat),
{
    let mut d: usize = 0;
    let mut i: usize = 0;
    assert(ts@.take(0) =~= Seq::<TopLevelObject>::empty());
    while i < ts.len()
        invariant
            i <= ts.len(),
            d == min_nat(top_levels_depth(ts@.take(i as int)), cap as nat),
        decreases ts.len() - i,
    {
        assert(ts@.take(i + 1).drop_last() =~= ts@.take(i as int));
        assert(ts@.take(i + 1).last() == ts@[i as int]);
        let e = match &ts[i] {
            TopLevelObject::FunctionDefinition(fd) => block_depth_capped(&fd.body, cap),
            TopLevelObject::Statement(s) => statement_depth_capped(s, cap),
        };
        if e > d {
            d = e;
        }
        i = i + 1;
    }
    assert(ts@.take(ts.len() as int) =~= ts@);
    d
}

impl Emitter {
    /// The operator table of an emitter is always the one that `operator_map` builds.
    #[verifier::type_invariant]
    spec fn well_formed(self) -> bool {
        table_views(self.operator_map@) == operator_table()
    }

    /// The indentation level at which the emitter is writing.
    pub closed spec fn level(self) -> nat {
        self.level as nat
    }

    /// An emitter at indentation level 0.
    pub fn new() -> (res: Emitter)
        ensures
            res.level() == 0,
    {
        Emitter { operator_map: Emitter::operator_map(), level: 0 }
    }

    /// Whether the emitter can write `program`: whether the spaces of its most deeply
    /// indented line can be counted.
    pub fn fits_program(&self, program: &Program) -> (res: bool)
        ensures
            res == fits(self.level(), top_levels_depth(program.objects@)),
    {
        let limit: usize = usize::MAX / 4;
        let d = top_levels_depth_capped(&program.objects, limit + 1);
        let ghost depth = top_levels_depth(program.objects@);
        assert(((self.level + depth) * 4 <= usize::MAX) == (self.level + depth <= limit)) by (nonlinear_arith)
            requires
                limit == usize::MAX / 4,
        ;
        self.level <= limit && d <= limit - self.level
    }

    /// The operators that are written otherwise in Python, each paired with what it becomes.
    pub fn operator_map() -> (res: Vec<(String, String)>)
        ensures
            table_views(res@) == operator_table(),
    {
        let mut map: Vec<(String, String)> = Vec::new();
        map.push((owned("=?"), owned("==")));
        map.push((owned("=/"), owned("!=")));
        map.push((owned(">_"), owned(">=")));
        map.push((owned("<_"), owned("<=")));
        map.push((owned("&|"), owned("^")));
        map.push((owned("|&"), owned("^")));
        map.push((owned("^"), owned("**")));
        assert(table_views(map@) =~= operator_table());
        map
    }

    /// The Python spelling of `op`: what the operator table gives for it, or `op` itself.
    pub fn operator(&mut self, op: &String) -> (res: String)
        ensures
            res@ == spec_operator(op@),
            *final(self) == *old(self),
    {
        proof {
            use_type_invariant(&*self);
        }
        let ghost table = table_views(self.operator_map@);
        let mut i: usize = 0;
        assert(table.skip(0) =~= table);
        while i < self.operator_map.len()
            invariant
                table == table_views(self.operator_map@),
                table == operator_table(),
                i <= self.operator_map.len(),
                table_lookup(table, op@) == table_lookup(table.skip(i as int), op@),
            decreases self.operator_map.len() - i,
        {
            let ghost rest = table.skip(i as int);
            assert(rest[0] == table[i as int]);
            if self.operator_map[i].0 == *op {
                return copy_text(&self.operator_map[i].1);
            }
            assert(rest.drop_first() =~= table.skip(i + 1));
            i = i + 1;
        }
        copy_text(op)
    }

    /// The lines, each indented to the emitter's level plus `offset_level` and ended by a
    /// newline.
    pub fn indented(&mut self, lines: Vec<&str>, offset_level: usize) -> (res: String)
        requires
            fits(old(self).level(), offset_level as nat),
        ensures
            res@ == spec_indented(str_views(lines@), old(self).level() + offset_level as nat),
            *final(self) == *old(self),
    {
        let ghost all = str_views(lines@);
        let width = (self.level + offset_level) * 4;
        let mut res = String::new();
        let mut i: usize = 0;
        assert(all.take(0) =~= Seq::<Seq<char>>::empty());
        while i < lines.len()
            invariant
                all == str_views(lines@),
                i <= lines.len(),
                width == (self.level() + offset_level) * 4,
                res@ == spec_indented(all.take(i as int), self.level() + offset_level as nat),
            decreases lines.len() - i,
        {
            assert(all.take(i + 1).drop_last() =~= all.take(i as int));
            let pad_text = spaces(width);
            res.append(pad_text.as_str());
            res.append(lines[i]);
            res.append("\n");
            i = i + 1;
        }
        assert(all.take(lines.len() as int) =~= all);
        res
    }

    /// The Python text of a call: its name, then its arguments in brackets, separated by
    /// `", "`.
    fn function_call(&mut self, function_call: &FunctionCall) -> (res: String)
        ensures
            res@ == spec_function_call(*function_call),
            *final(self) == *old(self),
        decreases function_call,
    {
        let ghost args = function_call.arguments@;
        let mut res = copy_text(&function_call.name);
        res.append("(");
        let ghost start = res@;
        let mut i: usize = 0;
        assert(args.take(0) =~= Seq::<Expression>::empty());
        while i < function_call.arguments.len()
            invariant
                args == function_call.arguments@,
                i <= args.len(),
                res@ == start + spec_arguments(args.take(i as int)),
                *self == *old(self),
            decreases args.len() - i,
        {
            assert(args.take(i + 1).drop_last() =~= args.take(i as int));
            assert(args.take(i + 1).last() == args[i as int]);
            if i != 0 {
                res.append(", ");
            } else {
                assert(args.take(1) =~= seq![args[0]]);
            }
            let a = self.expression(&function_call.arguments[i]);
            res.append(a.as_str());
            i = i + 1;
        }
        assert(args.take(args.len() as int) =~= args);
        res.append(")");
        res
    }

    /// The Python text of an expression.
    fn expression(&mut self, expression: &Expression) -> (res: String)
        ensures
            res@ == spec_expression(*expression),
            *final(self) == *old(self),
        decreases expression,
    {
        match expression {
            Expression::Identifier(id) => copy_text(id),
            Expression::FunctionCall(function_call) => self.function_call(function_call),
            Expression::String(string) => copy_text(string),
            Expression::Range { left_interval, left, right, right_interval } => {
                let mut res = owned("range(");
                if same_text(left_interval.as_str(), "[") {
                    res.append("-(");
                    let l = self.expression(left);
                    res.append(l.as_str());
                    res.append("//-1)");
                } else {
                    res.append("int(");
                    let l = self.expression(left);
                    res.append(l.as_str());
                    res.append(")+1");
                }
                res.append(", ");
                if same_text(right_interval.as_str(), "]") {
                    res.append("int(");
                    let r = self.expression(right);
                    res.append(r.as_str());
                    res.append(")+1");
                } else {
                    res.append("-(");
                    let r = self.expression(right);
                    res.append(r.as_str());
                    res.append("//-1)");
                }
                res.append(")");
                res
            },
            Expression::Float(number) => copy_text(number),
            Expression::Integer(number) => integer_text(*number),
            Expression::BinaryOperation { left, operator, right } => {
                let mut res = self.expression(left);
                res.append(" ");
                let o = self.operator(operator);
                res.append(o.as_str());
                res.append(" ");
                let r = self.expression(right);
                res.append(r.as_str());
                res
            },
            Expression::UnaryOperation { base, operator, unary_type } => match unary_type {
                UnaryType::Before => {
                    let mut res = self.operator(operator);
                    let b = self.expression(base);
                    res.append(b.as_str());
                    res
                },
                UnaryType::After => {
                    let mut res = self.expression(base);
                    let o = self.operator(operator);
                    res.append(o.as_str());
                    res
                },
            },
        }
    }

    /// The Python text of a block: each statement on lines of its own, one level deeper
    /// than the emitter's level.
    fn block(&mut self, block: &Block) -> (res: String)
        requires
            fits(old(self).level(), block_depth(*block)),
        ensures
            res@ == spec_block(old(self).level(), *block),
            *final(self) == *old(self),
        decreases block,
    {
        proof {
            use_type_invariant(&*self);
        }
        let ghost ss = block.statements@;
        let ghost outer = self.level();
        self.level = self.level + 1;
        let width = self.level * 4;
        let mut res = String::new();
        let mut i: usize = 0;
        assert(ss.take(0) =~= Seq::<Statement>::empty());
        while i < block.statements.len()
            invariant
                ss == block.statements@,
                i <= ss.len(),
                self.level() == outer + 1,
                self.operator_map == old(self).operator_map,
                width == self.level() * 4,
                fits(outer, block_depth(*block)),
                res@ == spec_statements(outer + 1, ss.take(i as int)),
            decreases ss.len() - i,
        {
            assert(ss.take(i + 1).drop_last() =~= ss.take(i as int));
            assert(ss.take(i + 1).last() == ss[i as int]);
            proof {
                lemma_statements_depth(ss, i as int);
            }
            let line_pad = spaces(width);
            res.append(line_pad.as_str());
            let text = self.statement(&block.statements[i]);
            res.append(text.as_str());
            res.append("\n");
            i = i + 1;
        }
        assert(ss.take(ss.len() as int) =~= ss);
        self.level = self.level - 1;
        res
    }

    /// The Python text of a statement at the emitter's level.
    fn statement(&mut self, statement: &Statement) -> (res: String)
        requires
            fits(old(self).level(), statement_depth(*statement)),
        ensures
            res@ == spec_statement(old(self).level(), *statement),
            *final(self) == *old(self),
        decreases statement,
    {
        match statement {
            Statement::Assignment { target, operator, value } => {
                if let Some(operator) = operator {
                    let mut res = copy_text(target);
                    res.append(" = ");
                    res.append(target.as_str());
                    res.append(" ");
                    let o = self.operator(operator);
                    res.append(o.as_str());
                    res.append(" ");
                    let v = self.expression(value);
                    res.append(v.as_str());
                    res
                } else {
                    let mut res = copy_text(target);
                    res.append(" = ");
                    let v = self.expression(value);
                    res.append(v.as_str());
                    res
                }
            },
            Statement::Declaration { target, value } => {
                let mut res = owned("let ");
                res.append(target.as_str());
                if let Some(value) = value {
                    res.append(" = ");
                    let v = self.expression(value);
                    res.append(v.as_str());
                }
                res
            },
            Statement::IfStatement { cond, then, els } => {
                let mut res = owned("if ");
                let c = self.expression(cond);
                res.append(c.as_str());
                res.append(":\n");
                let t = self.block(then);
                res.append(t.as_str());
                if let Some(els) = els {
                    let else_pad = spaces(self.level * 4);
                    res.append(else_pad.as_str());
                    res.append("else:\n");
                    let e = self.block(els);
                    res.append(e.as_str());
                }
                res
            },
            Statement::ForStatement { var, iterator, body } => {
                let mut res = owned("for ");
                res.append(var.as_str());
                res.append(" in ");
                let it = self.expression(iterator);
                res.append(it.as_str());
                res.append(":\n");
                let lines: Vec<&str> = vec![
                    "if Loop.semaphore > 0:",
                    "    Loop.semaphore -= 1",
                    "    if Loop.semaphore == 0 and Loop.continue_flag:",
                    "        Loop.continue_flag = False",
                    "        continue",
                    "    break",
                ];
                assert(str_views(lines@) =~= loop_guard_lines());
                let guard = self.indented(lines, 1);
                res.append(guard.as_str());
                let b = self.block(body);
                res.append(b.as_str());
                res
            },
            Statement::FunctionCall(function_call) => self.function_call(function_call),
            Statement::LoopInst { instruction, times } => {
                let mut res = owned("Loop.semaphore = ");
                if let Some(times) = times {
                    let t = self.expression(times);
                    res.append(t.as_str());
                } else {
                    res.append("1");
                }
                match instruction {
                    BreakOrCont::Cont => {
                        res.append(";Loop.continue_flag = True");
                    },
                    BreakOrCont::Break => {
                        assert(res@ + Seq::<char>::empty() =~= res@);
                    },
                }
                res.append(";continue");
                res
            },
        }
    }

    /// The Python text of a top-level object: a function definition with its body one
    /// level deeper, or a statement.
    fn tlo(&mut self, tlo: &TopLevelObject) -> (res: String)
        requires
            fits(
                old(self).level(),
                match *tlo {
                    TopLevelObject::FunctionDefinition(fd) => block_depth(fd.body),
                    TopLevelObject::Statement(s) => statement_depth(s),
                },
            ),
        ensures
            res@ == spec_top_level(old(self).level(), *tlo),
            *final(self) == *old(self),
    {
        match tlo {
            TopLevelObject::FunctionDefinition(function_definition) => {
                let mut res = owned("def ");
                res.append(function_definition.name.as_str());
                res.append("(");
                let params = join_text(&function_definition.parameters, ", ");
                res.append(params.as_str());
                res.append("):\n");
                let b = self.block(&function_definition.body);
                res.append(b.as_str());
                res
            },
            TopLevelObject::Statement(statement) => self.statement(statement),
        }
    }

    /// Writes `program` as a Python program: the class that holds the loop state, then
    /// each top-level object followed by a newline.
    pub fn emit(&mut self, program: &Program) -> (res: String)
        requires
            fits(old(self).level(), top_levels_depth(program.objects@)),
        ensures
            res@ == spec_emit(old(self).level(), *program),
            *final(self) == *old(self),
    {
        let header: Vec<&str> = vec!["class Loop:", "    continue_flag = False", "    semaphore = 0"];
        assert(str_views(header@) =~= header_lines());
        let mut res = self.indented(header, 0);
        let ghost start = res@;
        let ghost ts = program.objects@;
        let mut i: usize = 0;
        assert(ts.take(0) =~= Seq::<TopLevelObject>::empty());
        while i < program.objects.len()
            invariant
                ts == program.objects@,
                i <= ts.len(),
                *self == *old(self),
                fits(self.level(), top_levels_depth(ts)),
                res@ == start + spec_top_levels(self.level(), ts.take(i as int)),
            decreases ts.len() - i,
        {
            assert(ts.take(i + 1).drop_last() =~= ts.take(i as int));
            assert(ts.take(i + 1).last() == ts[i as int]);
            proof {
                lemma_top_levels_depth(ts, i as int);
            }
            let t = self.tlo(&program.objects[i]);
            res.append(t.as_str());
            res.append("\n");
            i = i + 1;
        }
        assert(ts.take(ts.len() as int) =~= ts);
        res
    }
}

} // verus!
