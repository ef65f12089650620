use vstd::prelude::*;

use crate::text::{chars_of, join_seqs, join_text, repeat_seq, repeat_text, text_of, views};

verus! {

// ---------------------------------------------------------------------------
// Lines of a text
// ---------------------------------------------------------------------------

/// The index of the first `'\n'` in `s`, or `s.len()` when there is none.
pub open spec fn first_newline(s: Seq<char>) -> nat
    decreases s.len(),
{
    if s.len() == 0 {
        0
    } else if s[0] == '\n' {
        0
    } else {
        1 + first_newline(s.drop_first())
    }
}

/// `l` without one final carriage return.
pub open spec fn strip_cr(l: Seq<char>) -> Seq<char> {
    if l.len() > 0 && l.last() == '\r' {
        l.drop_last()
    } else {
        l
    }
}

/// The lines of `s` as `str::lines` gives them: `s` is cut at each `'\n'`, a `'\r'` just
/// before a `'\n'` is dropped with it, and a final `'\n'` ends the last line rather than
/// starting an empty one.
pub open spec fn spec_lines(s: Seq<char>) -> Seq<Seq<char>>
    decreases s.len(),
{
    if s.len() == 0 {
        Seq::<Seq<char>>::empty()
    } else {
        let i = first_newline(s);
        if i >= s.len() {
            seq![s]
        } else {
            seq![strip_cr(s.take(i as int))] + spec_lines(s.skip(i + 1 as int))
        }
    }
}

proof fn lemma_first_newline(t: Seq<char>, k: int)
    requires
        0 <= k <= t.len(),
        forall|i: int| 0 <= i < k ==> t[i] != '\n',
        k == t.len() || t[k] == '\n',
    ensures
        first_newline(t) == k,
    decreases k,
{
    if k > 0 {
        lemma_first_newline(t.drop_first(), k - 1);
    }
}

/// The lines of `s`, as `str::lines` gives them.
pub fn split_lines(s: &str) -> (res: Vec<String>)
    ensures
        views(res@) == spec_lines(s@),
{
    let cs = chars_of(s);
    let n = cs.len();
    let mut res: Vec<String> = Vec::new();
    let mut start: usize = 0;
    let mut j: usize = 0;
    assert(s@.skip(0) =~= s@);
    assert(views(res@) + spec_lines(s@) =~= spec_lines(s@));
    while j < n
        invariant
            cs@ == s@,
            n == cs.len(),
            start <= j <= n,
            forall|i: int| start <= i < j ==> cs@[i] != '\n',
            spec_lines(s@) == views(res@) + spec_lines(s@.skip(start as int)),
        decreases n - j,
    {
        if cs[j] == '\n' {
            let end = if j > start && cs[j - 1] == '\r' {
                j - 1
            } else {
                j
            };
            let line = text_of(&cs, start, end);
            let ghost t = s@.skip(start as int);
            proof {
                lemma_first_newline(t, j - start);
                assert(t.take(j - start) =~= cs@.subrange(start as int, j as int));
                assert(t.skip(j - start + 1) =~= s@.skip(j + 1));
                assert(line@ =~= strip_cr(t.take(j - start)));
            }
            let ghost before = views(res@);
            res.push(line);
            assert(views(res@) =~= before.push(line@));
            start = j + 1;
        }
        j = j + 1;
    }
    let ghost t = s@.skip(start as int);
    if start < n {
        let line = text_of(&cs, start, n);
        proof {
            lemma_first_newline(t, n - start);
            assert(line@ =~= t);
        }
        let ghost before = views(res@);
        res.push(line);
        assert(views(res@) =~= before.push(line@));
    } else {
        assert(t.len() == 0);
    }
    assert(spec_lines(s@) =~= views(res@));
    res
}

// ---------------------------------------------------------------------------
// Indentation markers
// ---------------------------------------------------------------------------

/// Whether `l` holds nothing but spaces (the empty line too).
pub open spec fn is_blank(l: Seq<char>) -> bool {
    forall|i: int| 0 <= i < l.len() ==> l[i] == ' '
}

/// The number of spaces at the start of `l`.
pub open spec fn leading_spaces(l: Seq<char>) -> nat
    decreases l.len(),
{
    if l.len() > 0 && l[0] == ' ' {
        1 + leading_spaces(l.drop_first())
    } else {
        0
    }
}

/// How many `[INDENT]` markers a line indented by `this` spaces gets after a line indented by
/// `level` spaces.
pub open spec fn indents_between(this: nat, level: nat) -> nat {
    if this > level {
        ((this - level) as nat) / 4
    } else {
        0
    }
}

/// How many `[DEDENT]` markers a line indented by `this` spaces gets after a line indented by
/// `level` spaces.
pub open spec fn dedents_between(this: nat, level: nat) -> nat {
    if this < level {
        ((level - this) as nat) / 4
    } else {
        0
    }
}

/// What is put before a line indented by `this` spaces that follows a line indented by
/// `level` spaces.
pub open spec fn dent_marker(this: nat, level: nat) -> Seq<char> {
    if this > level {
        repeat_seq("[INDENT]"@, indents_between(this, level))
    } else if this < level {
        repeat_seq("[DEDENT]"@, dedents_between(this, level))
    } else {
        "[NODENT]"@
    }
}

/// The lines that `insert_dents` writes for `ls`, when the line before them was indented by
/// `level` spaces: blank lines are left out, every other line gets its marker in front, and
/// at the end a line of `[DEDENT]` markers leads back to no indentation.
pub open spec fn dent_lines(ls: Seq<Seq<char>>, level: nat) -> Seq<Seq<char>>
    decreases ls.len(),
{
    if ls.len() == 0 {
        if level > 0 {
            seq![repeat_seq("[DEDENT]"@, level / 4)]
        } else {
            Seq::<Seq<char>>::empty()
        }
    } else if is_blank(ls[0]) {
        dent_lines(ls.drop_first(), level)
    } else {
        let this = leading_spaces(ls[0]);
        seq![dent_marker(this, level) + ls[0]] + dent_lines(ls.drop_first(), this)
    }
}

/// What `insert_dents` gives for `source`.
pub open spec fn spec_insert_dents(source: Seq<char>) -> Seq<char> {
    join_seqs(dent_lines(spec_lines(source), 0), "\n"@)
}

/// The lines of `ls` that are not blank, in order.
pub open spec fn nonblank_lines(ls: Seq<Seq<char>>) -> Seq<Seq<char>>
    decreases ls.len(),
{
    if ls.len() == 0 {
        Seq::<Seq<char>>::empty()
    } else if is_blank(ls[0]) {
        nonblank_lines(ls.drop_first())
    } else {
        seq![ls[0]] + nonblank_lines(ls.drop_first())
    }
}

/// How many `[INDENT]` markers `dent_lines(ls, level)` holds.
pub open spec fn indent_count(ls: Seq<Seq<char>>, level: nat) -> nat
    decreases ls.len(),
{
    if ls.len() == 0 {
        0
    } else if is_blank(ls[0]) {
        indent_count(ls.drop_first(), level)
    } else {
        let this = leading_spaces(ls[0]);
        indents_between(this, level) + indent_count(ls.drop_first(), this)
    }
}

/// How many `[DEDENT]` markers `dent_lines(ls, level)` holds, the closing line's included.
pub open spec fn dedent_count(ls: Seq<Seq<char>>, level: nat) -> nat
    decreases ls.len(),
{
    if ls.len() == 0 {
        if level > 0 {
            level / 4
        } else {
            0
        }
    } else if is_blank(ls[0]) {
        dedent_count(ls.drop_first(), level)
    } else {
        let this = leading_spaces(ls[0]);
        dedents_between(this, level) + dedent_count(ls.drop_first(), this)
    }
}

/// Whether every line of `ls` that is not blank is indented by a multiple of four spaces.
pub open spec fn indented_by_fours(ls: Seq<Seq<char>>) -> bool {
    forall|i: int| 0 <= i < ls.len() && !is_blank(#[trigger] ls[i]) ==> leading_spaces(ls[i]) % 4 == 0
}

proof fn lemma_dents_balanced(ls: Seq<Seq<char>>, level: nat)
    requires
        level % 4 == 0,
        indented_by_fours(ls),
    ensures
        indent_count(ls, level) + level / 4 == dedent_count(ls, level),
    decreases ls.len(),
{
    if ls.len() > 0 {
        let rest = ls.drop_first();
        assert(indented_by_fours(rest)) by {
            assert forall|i: int| 0 <= i < rest.len() && !is_blank(#[trigger] rest[i]) implies leading_spaces(rest[i]) % 4 == 0 by {
                assert(rest[i] == ls[i + 1]);
            }
        }
        if is_blank(ls[0]) {
            lemma_dents_balanced(rest, level);
        } else {
            let this = leading_spaces(ls[0]);
            assert(this % 4 == 0);
            lemma_dents_balanced(rest, this);
            let a = this / 4;
            let b = level / 4;
            assert(this == a * 4 && level == b * 4);
            if this > level {
                assert(((this - level) as nat) / 4 == a - b) by (nonlinear_arith)
                    requires
                        this == a * 4,
                        level == b * 4,
                        this > level,
                ;
            } else if this < level {
                assert(((level - this) as nat) / 4 == b - a) by (nonlinear_arith)
                    requires
                        this == a * 4,
                        level == b * 4,
                        this < level,
                ;
            }
        }
    }
}

/// Markers balance: when every line of `source` that is not blank is indented by a
/// multiple of four spaces, `insert_dents` writes as many `[DEDENT]` markers as `[INDENT]`
/// markers, so every block that it opens it also closes.
pub proof fn law_dents_balanced(source: Seq<char>)
    requires
        indented_by_fours(spec_lines(source)),
    ensures
        indent_count(spec_lines(source), 0) == dedent_count(spec_lines(source), 0),
{
    lemma_dents_balanced(spec_lines(source), 0);
}

proof fn lemma_dents_keep_lines(ls: Seq<Seq<char>>, level: nat)
    ensures
        nonblank_lines(ls).len() <= dent_lines(ls, level).len() <= nonblank_lines(ls).len() + 1,
        forall|i: int|
            0 <= i < nonblank_lines(ls).len() ==> (#[trigger] nonblank_lines(ls)[i]).is_suffix_of(
                dent_lines(ls, level)[i],
            ),
    decreases ls.len(),
{
    if ls.len() > 0 {
        let rest = ls.drop_first();
        if is_blank(ls[0]) {
            lemma_dents_keep_lines(rest, level);
        } else {
            let this = leading_spaces(ls[0]);
            lemma_dents_keep_lines(rest, this);
            let nb = nonblank_lines(ls);
            let dl = dent_lines(ls, level);
            assert forall|i: int| 0 <= i < nb.len() implies (#[trigger] nb[i]).is_suffix_of(dl[i]) by {
                if i == 0 {
                    let m = dent_marker(this, level);
                    assert((m + ls[0]).subrange(m.len() as int, (m + ls[0]).len() as int) =~= ls[0]);
                } else {
                    assert(nb[i] == nonblank_lines(rest)[i - 1]);
                    assert(dl[i] == dent_lines(rest, this)[i - 1]);
                }
            }
        }
    }
}

/// Lines are kept: `insert_dents` writes one line for every line of `source` that is not
/// blank, in the same order, each of them ending with that source line as it stood, and at
/// most one line more (the closing `[DEDENT]` markers).
pub proof fn law_dents_keep_lines(source: Seq<char>)
    ensures
        ({
            let nb = nonblank_lines(spec_lines(source));
            let out = dent_lines(spec_lines(source), 0);
            &&& nb.len() <= out.len() <= nb.len() + 1
            &&& forall|i: int| 0 <= i < nb.len() ==> (#[trigger] nb[i]).is_suffix_of(out[i])
        }),
{
    lemma_dents_keep_lines(spec_lines(source), 0);
}

fn blank(cs: &Vec<char>) -> (res: bool)
    ensures
        res == is_blank(cs@),
{
    let mut i: usize = 0;
    while i < cs.len()
        invariant
            i <= cs.len(),
            forall|k: int| 0 <= k < i ==> cs@[k] == ' ',
        decreases cs.len() - i,
    {
        if cs[i] != ' ' {
            return false;
        }
        i = i + 1;
    }
    true
}

proof fn lemma_leading_spaces(l: Seq<char>, k: int)
    requires
        0 <= k <= l.len(),
        forall|i: int| 0 <= i < k ==> l[i] == ' ',
        k == l.len() || l[k] != ' ',
    ensures
        leading_spaces(l) == k,
    decreases k,
{
    if k > 0 {
        lemma_leading_spaces(l.drop_first(), k - 1);
    }
}

fn count_leading_spaces(cs: &Vec<char>) -> (res: usize)
    ensures
        res == leading_spaces(cs@),
{
    let mut i: usize = 0;
    while i < cs.len() && cs[i] == ' '
        invariant
            i <= cs.len(),
            forall|k: int| 0 <= k < i ==> cs@[k] == ' ',
        decreases cs.len() - i,
    {
        i = i + 1;
    }
    proof {
        lemma_leading_spaces(cs@, i as int);
    }
    i
}

/// Marks the indentation of `source` for the grammar: each line that is not blank gets in
/// front of it `[INDENT]` for every four spaces that it is indented deeper than the line
/// before it, `[DEDENT]` for every four spaces less, or `[NODENT]` when it is indented as
/// deep; blank lines are dropped, a last line of `[DEDENT]` markers closes what is still
/// open, and the lines are joined with `'\n'`.
pub fn insert_dents(source: &String) -> (res: String)
    ensures
        res@ == spec_insert_dents(source@),
{
    let lines = split_lines(source.as_str());
    let ghost all = views(lines@);
    let mut out_lines: Vec<String> = Vec::new();
    let mut level: usize = 0;
    let mut i: usize = 0;
    assert(all.skip(0) =~= all);
    assert(views(out_lines@) + dent_lines(all, 0) =~= dent_lines(all, 0));
    while i < lines.len()
        invariant
            all == views(lines@),
            all == spec_lines(source@),
            i <= lines.len(),
            dent_lines(all, 0) == views(out_lines@) + dent_lines(all.skip(i as int), level as nat),
        decreases lines.len() - i,
    {
        let line = &lines[i];
        let cs = chars_of(line.as_str());
        let ghost rest = all.skip(i as int);
        assert(rest[0] == line@);
        assert(rest.drop_first() =~= all.skip(i + 1));
        if blank(&cs) {
        } else {
            let this_level = count_leading_spaces(&cs);
            let mut marked = if this_level > level {
                repeat_text("[INDENT]", (this_level - level) / 4)
            } else if this_level < level {
                repeat_text("[DEDENT]", (level - this_level) / 4)
            } else {
                let mut m = String::new();
                m.append("[NODENT]");
                m
            };
            marked.append(line.as_str());
            let ghost before = views(out_lines@);
            out_lines.push(marked);
            assert(views(out_lines@) =~= before.push(marked@));
            level = this_level;
        }
        i = i + 1;
    }
    assert(all.skip(lines.len() as int) =~= Seq::<Seq<char>>::empty());
    if level > 0 {
        let last = repeat_text("[DEDENT]", level / 4);
        let ghost before = views(out_lines@);
        out_lines.push(last);
        assert(views(out_lines@) =~= before.push(last@));
    }
    assert(views(out_lines@) =~= dent_lines(all, 0));
    join_text(&out_lines, "\n")
}

} // verus!
