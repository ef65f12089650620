use habu::dents::split_lines;
use habu::parse::insert_dents;

fn dents(s: &str) -> String {
    insert_dents(&s.to_string())
}

#[test]
fn flat_lines_get_nodent() {
    assert_eq!(dents("a = 1\nb = 2"), "[NODENT]a = 1\n[NODENT]b = 2");
}

#[test]
fn nested_block_opens_and_closes() {
    assert_eq!(
        dents("a\n    b\n    c\nd\n"),
        "[NODENT]a\n[INDENT]    b\n[NODENT]    c\n[DEDENT]d"
    );
}

#[test]
fn open_blocks_are_closed_at_the_end() {
    assert_eq!(
        dents("def f():\n    if x:\n        y = 1\n"),
        "[NODENT]def f():\n[INDENT]    if x:\n[INDENT]        y = 1\n[DEDENT][DEDENT]"
    );
}

#[test]
fn several_levels_at_once() {
    assert_eq!(
        dents("a\n        b\nc"),
        "[NODENT]a\n[INDENT][INDENT]        b\n[DEDENT][DEDENT]c"
    );
}

#[test]
fn blank_lines_are_dropped() {
    assert_eq!(dents("a\n\n   \nb\n"), "[NODENT]a\n[NODENT]b");
}

#[test]
fn carriage_returns_end_lines() {
    assert_eq!(dents("a\r\n    b\r\n"), "[NODENT]a\n[INDENT]    b\n[DEDENT]");
}

#[test]
fn indentation_below_four_spaces_gives_no_marker() {
    // Two spaces are deeper than none but less than one level: no marker, and the
    // closing line holds no marker either.
    assert_eq!(dents("a\n  b\n"), "[NODENT]a\n  b\n");
}

#[test]
fn empty_source_gives_empty_text() {
    assert_eq!(dents(""), "");
    assert_eq!(dents("\n\n    \n"), "");
}

#[test]
fn markers_balance_for_well_indented_source() {
    let out = dents("a\n    b\n        c\n    d\ne\n    f\n");
    assert_eq!(out.matches("[INDENT]").count(), out.matches("[DEDENT]").count());
    assert_eq!(out.matches("[INDENT]").count(), 3);
}

#[test]
fn every_nonblank_line_is_kept_in_order() {
    let src = "x\n\n    y\n  \n        z\n";
    let out = dents(src);
    let out_lines: Vec<&str> = out.split('\n').collect();
    let kept: Vec<&str> = src.lines().filter(|l| !l.chars().all(|c| c == ' ')).collect();
    assert!(out_lines.len() >= kept.len() && out_lines.len() <= kept.len() + 1);
    for (i, l) in kept.iter().enumerate() {
        assert!(out_lines[i].ends_with(l));
    }
}

#[test]
fn split_lines_matches_str_lines() {
    for s in ["", "a", "a\n", "a\nb", "a\r\nb\r\n", "\n\n", "a\r", "x\r\r\ny"] {
        let mine = split_lines(s);
        let theirs: Vec<String> = s.lines().map(|l| l.to_string()).collect();
        assert_eq!(mine, theirs, "lines of {:?}", s);
    }
}
