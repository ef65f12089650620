use vstd::prelude::*;

verus! {

// ---------------------------------------------------------------------------
// Text model
// ---------------------------------------------------------------------------

/// `s` written `n` times in a row.
pub open spec fn repeat_seq(s: Seq<char>, n: nat) -> Seq<char>
    decreases n,
{
    if n == 0 {
        Seq::<char>::empty()
    } else {
        repeat_seq(s, (n - 1) as nat) + s
    }
}

/// The parts written one after another with `sep` between each two of them.
pub open spec fn join_seqs(parts: Seq<Seq<char>>, sep: Seq<char>) -> Seq<char>
    decreases parts.len(),
{
    if parts.len() == 0 {
        Seq::<char>::empty()
    } else if parts.len() == 1 {
        parts[0]
    } else {
        join_seqs(parts.drop_last(), sep) + sep + parts.last()
    }
}

/// The views of a sequence of strings.
pub open spec fn views(v: Seq<String>) -> Seq<Seq<char>> {
    v.map_values(|s: String| s@)
}

// ---------------------------------------------------------------------------
// Basic operations on text
// ---------------------------------------------------------------------------

/// The characters of `s`, in order.
pub fn chars_of(s: &str) -> (res: Vec<char>)
    ensures
        res@ == s@,
{
    let mut res: Vec<char> = Vec::new();
    for c in it: s.chars()
        invariant
            res@ == it.seq().take(it.index() as int),
    {
        res.push(c);
    }
    proof {
        broadcast use vstd::string::group_string_axioms;
    }
    assert(res@ =~= s@);
    res
}

/// Whether `a` and `b` hold the same characters.
pub fn same_text(a: &str, b: &str) -> (res: bool)
    ensures
        res == (a@ == b@),
{
    let ca = chars_of(a);
    let cb = chars_of(b);
    if ca.len() != cb.len() {
        return false;
    }
    let mut i: usize = 0;
    while i < ca.len()
        invariant
            ca@ == a@,
            cb@ == b@,
            ca.len() == cb.len(),
            i <= ca.len(),
            forall|k: int| 0 <= k < i ==> ca@[k] == cb@[k],
        decreases ca.len() - i,
    {
        if ca[i] != cb[i] {
            return false;
        }
        i = i + 1;
    }
    assert(ca@ =~= cb@);
    true
}

/// Appends `c` to `s` through `String::push`, which its documentation says appends the
/// given character to the end of the string; this contract says that and no more.
#[verifier::external_body]
pub(crate) fn push_char(s: &mut String, c: char)
    ensures
        final(s)@ == old(s)@.push(c),
{
    s.push(c);
}

/// The characters `cs[from..to]` as a string.
pub fn text_of(cs: &Vec<char>, from: usize, to: usize) -> (res: String)
    requires
        from <= to <= cs.len(),
    ensures
        res@ == cs@.subrange(from as int, to as int),
{
    let mut res = String::new();
    let mut i: usize = from;
    while i < to
        invariant
            from <= i <= to <= cs.len(),
            res@ == cs@.subrange(from as int, i as int),
        decreases to - i,
    {
        push_char(&mut res, cs[i]);
        i = i + 1;
        assert(res@ =~= cs@.subrange(from as int, i as int));
    }
    res
}

/// A copy of `s`.
pub fn copy_text(s: &String) -> (res: String)
    ensures
        res@ == s@,
{
    s.clone()
}

/// `n` space characters.
pub fn spaces(n: usize) -> (res: String)
    ensures
        res@ == Seq::new(n as nat, |i: int| ' '),
{
    let mut res = String::new();
    let mut i: usize = 0;
    while i < n
        invariant
            i <= n,
            res@ == Seq::new(i as nat, |k: int| ' '),
        decreases n - i,
    {
        proof {
            reveal_strlit(" ");
        }
        res.append(" ");
        i = i + 1;
        assert(res@ =~= Seq::new(i as nat, |k: int| ' '));
    }
    res
}

/// `s` written `n` times in a row.
pub fn repeat_text(s: &str, n: usize) -> (res: String)
    ensures
        res@ == repeat_seq(s@, n as nat),
{
    let mut res = String::new();
    let mut i: usize = 0;
    while i < n
        invariant
            i <= n,
            res@ == repeat_seq(s@, i as nat),
        decreases n - i,
    {
        res.append(s);
        i = i + 1;
    }
    res
}

/// The strings of `parts` with `sep` between each two of them.
pub fn join_text(parts: &Vec<String>, sep: &str) -> (res: String)
    ensures
        res@ == join_seqs(views(parts@), sep@),
{
    let mut res = String::new();
    let ghost all = views(parts@);
    let mut i: usize = 0;
    while i < parts.len()
        invariant
            i <= parts.len(),
            all == views(parts@),
            res@ == join_seqs(all.take(i as int), sep@),
        decreases parts.len() - i,
    {
        assert(all.take(i + 1).drop_last() =~= all.take(i as int));
        if i != 0 {
            res.append(sep);
        } else {
            assert(all.take(0) =~= Seq::<Seq<char>>::empty());
        }
        res.append(parts[i].as_str());
        i = i + 1;
    }
    assert(all.take(parts.len() as int) =~= all);
    res
}

// ---------------------------------------------------------------------------
// Decimal numbers
// ---------------------------------------------------------------------------

/// The decimal digit for `d` (0 to 9).
pub open spec fn digit_char(d: int) -> char {
    if d == 0 {
        '0'
    } else if d == 1 {
        '1'
    } else if d == 2 {
        '2'
    } else if d == 3 {
        '3'
    } else if d == 4 {
        '4'
    } else if d == 5 {
        '5'
    } else if d == 6 {
        '6'
    } else if d == 7 {
        '7'
    } else if d == 8 {
        '8'
    } else {
        '9'
    }
}

/// The decimal digits of `n`, with no leading zero.
pub open spec fn digits_of(n: nat) -> Seq<char>
    decreases n,
{
    if n < 10 {
        seq![digit_char(n as int)]
    } else {
        digits_of(n / 10) + seq![digit_char((n % 10) as int)]
    }
}

/// `n` written in decimal, with a leading `-` when it is negative.
pub open spec fn decimal(n: int) -> Seq<char> {
    if n < 0 {
        seq!['-'] + digits_of((-n) as nat)
    } else {
        digits_of(n as nat)
    }
}

pub open spec fn is_digit(c: char) -> bool {
    48 <= (c as int) <= 57
}

pub open spec fn digit_value(c: char) -> int {
    (c as int) - 48
}

pub open spec fn all_digits(s: Seq<char>) -> bool {
    forall|i: int| 0 <= i < s.len() ==> is_digit(#[trigger] s[i])
}

/// The number that the decimal digits `s` denote.
pub open spec fn digits_value(s: Seq<char>) -> int
    decreases s.len(),
{
    if s.len() == 0 {
        0
    } else {
        digits_value(s.drop_last()) * 10 + digit_value(s.last())
    }
}

/// What reading `s` as an `i64` gives: an optional sign (`+` or `-`) followed by at least
/// one decimal digit and nothing else, whose value lies in the range of `i64`.
pub open spec fn spec_parse_i64(s: Seq<char>) -> Option<int> {
    let signed = s.len() > 0 && (s[0] == '-' || s[0] == '+');
    let negative = s.len() > 0 && s[0] == '-';
    let body = if signed {
        s.drop_first()
    } else {
        s
    };
    if body.len() == 0 || !all_digits(body) {
        None
    } else {
        let v = if negative {
            -digits_value(body)
        } else {
            digits_value(body)
        };
        if i64::MIN <= v && v <= i64::MAX {
            Some(v)
        } else {
            None
        }
    }
}

/// The value of the decimal digit `c`, or `None` when `c` is not one.
fn digit_of(c: char) -> (res: Option<u8>)
    ensures
        res is Some <==> is_digit(c),
        res matches Some(d) ==> d as int == digit_value(c),
{
    if c == '0' {
        Some(0)
    } else if c == '1' {
        Some(1)
    } else if c == '2' {
        Some(2)
    } else if c == '3' {
        Some(3)
    } else if c == '4' {
        Some(4)
    } else if c == '5' {
        Some(5)
    } else if c == '6' {
        Some(6)
    } else if c == '7' {
        Some(7)
    } else if c == '8' {
        Some(8)
    } else if c == '9' {
        Some(9)
    } else {
        None
    }
}

fn digit_text(d: u64) -> (res: &'static str)
    requires
        d < 10,
    ensures
        res@ == seq![digit_char(d as int)],
{
    proof {
        reveal_strlit("0");
        reveal_strlit("1");
        reveal_strlit("2");
        reveal_strlit("3");
        reveal_strlit("4");
        reveal_strlit("5");
        reveal_strlit("6");
        reveal_strlit("7");
        reveal_strlit("8");
        reveal_strlit("9");
    }
    if d == 0 {
        "0"
    } else if d == 1 {
        "1"
    } else if d == 2 {
        "2"
    } else if d == 3 {
        "3"
    } else if d == 4 {
        "4"
    } else if d == 5 {
        "5"
    } else if d == 6 {
        "6"
    } else if d == 7 {
        "7"
    } else if d == 8 {
        "8"
    } else {
        "9"
    }
}

fn digits_text(n: u64) -> (res: String)
    ensures
        res@ == digits_of(n as nat),
    decreases n,
{
    if n < 10 {
        let mut res = String::new();
        res.append(digit_text(n));
        res
    } else {
        let mut res = digits_text(n / 10);
        res.append(digit_text(n % 10));
        res
    }
}

/// `n` written in decimal, as `i64::to_string` writes it.
pub fn integer_text(n: i64) -> (res: String)
    ensures
        res@ == decimal(n as int),
{
    if n < 0 {
        let m: i128 = -(n as i128);
        let mut res = String::new();
        proof {
            reveal_strlit("-");
        }
        res.append("-");
        let d = digits_text(m as u64);
        res.append(d.as_str());
        res
    } else {
        digits_text(n as u64)
    }
}

proof fn lemma_digits_value_monotone(s: Seq<char>, i: int)
    requires
        all_digits(s),
        0 <= i <= s.len(),
    ensures
        0 <= digits_value(s.take(i)) <= digits_value(s),
    decreases s.len(),
{
    if s.len() == 0 {
        assert(s.take(i) =~= s);
    } else if i == s.len() {
        assert(s.take(i) =~= s);
        lemma_digits_value_monotone(s.drop_last(), s.len() - 1);
        assert(s.drop_last().take(s.len() - 1) =~= s.drop_last());
    } else {
        assert(is_digit(s[s.len() - 1]));
        assert(s.drop_last().take(i) =~= s.take(i));
        lemma_digits_value_monotone(s.drop_last(), i);
    }
}

/// Reads `s` as an `i64`, as `str::parse::<i64>` does.
pub fn parse_i64(s: &str) -> (res: Option<i64>)
    ensures
        match res {
            Some(v) => spec_parse_i64(s@) == Some(v as int),
            None => spec_parse_i64(s@) is None,
        },
{
    let cs = chars_of(s);
    let n = cs.len();
    let signed = n > 0 && (cs[0] == '-' || cs[0] == '+');
    let negative = n > 0 && cs[0] == '-';
    let start: usize = if signed {
        1
    } else {
        0
    };
    let ghost body = if signed {
        s@.drop_first()
    } else {
        s@
    };
    if start == n {
        return None;
    }
    let limit: u128 = 9223372036854775808;
    let mut acc: u128 = 0;
    let mut i: usize = start;
    while i < n
        invariant
            cs@ == s@,
            n == cs.len(),
            start <= i <= n,
            start == 0 || start == 1,
            body =~= cs@.subrange(start as int, n as int),
            all_digits(body.take(i - start)),
            acc as int == digits_value(body.take(i - start)),
            acc <= limit,
            limit == 9223372036854775808,
            signed == (s@.len() > 0 && (s@[0] == '-' || s@[0] == '+')),
            negative == (s@.len() > 0 && s@[0] == '-'),
            body == (if signed {
                s@.drop_first()
            } else {
                s@
            }),
        decreases n - i,
    {
        let c = cs[i];
        let dv = digit_of(c);
        if dv.is_none() {
            assert(body[i - start] == c);
            assert(!is_digit(body[i - start]));
            return None;
        }
        let d: u128 = dv.unwrap() as u128;
        let ghost pre = body.take(i - start);
        assert(acc * 10 <= 92233720368547758080) by (nonlinear_arith)
            requires
                acc <= 9223372036854775808,
        ;
        acc = acc * 10 + d;
        i = i + 1;
        assert(body.take(i - start).drop_last() =~= pre);
        assert(body.take(i - start).last() == c);
        if acc > limit {
            proof {
                if all_digits(body) {
                    lemma_digits_value_monotone(body, i - start);
                }
            }
            return None;
        }
    }
    assert(body.take(n - start) =~= body);
    if negative {
        let v: i128 = -(acc as i128);
        Some(v as i64)
    } else if acc <= 9223372036854775807 {
        Some(acc as i64)
    } else {
        None
    }
}

// ---------------------------------------------------------------------------
// Laws of decimal numbers
// ---------------------------------------------------------------------------

proof fn lemma_digit_char(d: int)
    requires
        0 <= d < 10,
    ensures
        is_digit(digit_char(d)),
        digit_value(digit_char(d)) == d,
{
}

proof fn lemma_digits_of(n: nat)
    ensures
        digits_of(n).len() > 0,
        all_digits(digits_of(n)),
        digits_value(digits_of(n)) == n,
    decreases n,
{
    lemma_digit_char((n % 10) as int);
    if n < 10 {
        lemma_digit_char(n as int);
        assert(digits_of(n).drop_last() =~= Seq::<char>::empty());
        assert(digits_value(Seq::<char>::empty()) == 0);
    } else {
        lemma_digits_of(n / 10);
        let s = digits_of(n);
        assert(s.drop_last() =~= digits_of(n / 10));
        assert(all_digits(s)) by {
            assert forall|i: int| 0 <= i < s.len() implies is_digit(#[trigger] s[i]) by {
                if i < s.len() - 1 {
                    assert(s[i] == digits_of(n / 10)[i]);
                }
            }
        }
        assert(n == (n / 10) * 10 + n % 10) by (nonlinear_arith);
    }
}

/// Reading back what `integer_text` writes gives the same number: for every `i64` value
/// `n`, `parse_i64(integer_text(n)) == Some(n)`.
pub proof fn law_integer_text_round_trip(n: i64)
    ensures
        spec_parse_i64(decimal(n as int)) == Some(n as int),
{
    if n < 0 {
        let m = (-n) as nat;
        lemma_digits_of(m);
        let s = decimal(n as int);
        assert(s.drop_first() =~= digits_of(m));
    } else {
        let m = n as nat;
        lemma_digits_of(m);
        let s = digits_of(m);
        assert(is_digit(s[0]));
    }
}

} // verus!
