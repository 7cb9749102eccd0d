//! Character-level text helpers: conversion between strings and character
//! vectors, whitespace, trimming and decimal numerals.

use vstd::prelude::*;

verus! {

/// The characters of `s`, in order.
pub fn chars_of(s: &str) -> (v: Vec<char>)
    ensures
        v@ == s@,
{
    let mut v: Vec<char> = Vec::new();
    for c in it: s.chars()
        invariant
            v@ == it.seq().take(it.index() as int),
            it.seq() == s@,
    {
        v.push(c);
    }
    v
}

/// Appends one character to a string (std's `String::push`).
#[verifier::external_body]
fn push_char(s: &mut String, c: char)
    ensures
        final(s)@ == old(s)@.push(c),
{
    s.push(c);
}

/// The string made of the characters of `cs`.
pub fn string_of(cs: &Vec<char>) -> (s: String)
    ensures
        s@ == cs@,
{
    let mut s = String::new();
    let mut i: usize = 0;
    while i < cs.len()
        invariant
            i <= cs.len(),
            s@ == cs@.take(i as int),
        decreases cs.len() - i,
    {
        push_char(&mut s, cs[i]);
        assert(cs@.take(i + 1) == cs@.take(i as int).push(cs@[i as int]));
        i = i + 1;
    }
    assert(cs@.take(cs.len() as int) == cs@);
    s
}

/// Appends all of `src` to `dst`.
pub fn extend_chars(dst: &mut Vec<char>, src: &Vec<char>)
    ensures
        final(dst)@ == old(dst)@ + src@,
{
    let mut i: usize = 0;
    while i < src.len()
        invariant
            i <= src.len(),
            dst@ == old(dst)@ + src@.take(i as int),
        decreases src.len() - i,
    {
        dst.push(src[i]);
        assert(src@.take(i + 1) == src@.take(i as int).push(src@[i as int]));
        i = i + 1;
    }
    assert(src@.take(src.len() as int) == src@);
}

/// Appends the characters of `s` to `dst`.
pub fn extend_str(dst: &mut Vec<char>, s: &str)
    ensures
        final(dst)@ == old(dst)@ + s@,
{
    let cs = chars_of(s);
    extend_chars(dst, &cs);
}

/// `n` copies of `c`.
pub open spec fn repeat(c: char, n: nat) -> Seq<char> {
    Seq::new(n, |i: int| c)
}

/// Appends `n` copies of `c` to `dst`.
pub fn push_repeat(dst: &mut Vec<char>, c: char, n: usize)
    ensures
        final(dst)@ == old(dst)@ + repeat(c, n as nat),
{
    let mut i: usize = 0;
    while i < n
        invariant
            i <= n,
            dst@ == old(dst)@ + repeat(c, i as nat),
        decreases n - i,
    {
        dst.push(c);
        assert(repeat(c, (i + 1) as nat) == repeat(c, i as nat).push(c));
        i = i + 1;
    }
}

/// Unicode's `White_Space` property, which `char::is_whitespace` tests.
pub open spec fn is_ws(c: char) -> bool {
    ||| '\u{9}' <= c <= '\u{d}'
    ||| c == ' '
    ||| c == '\u{85}'
    ||| c == '\u{a0}'
    ||| c == '\u{1680}'
    ||| '\u{2000}' <= c <= '\u{200a}'
    ||| c == '\u{2028}'
    ||| c == '\u{2029}'
    ||| c == '\u{202f}'
    ||| c == '\u{205f}'
    ||| c == '\u{3000}'
}

/// Whether `c` is Unicode whitespace.
pub fn is_whitespace(c: char) -> (b: bool)
    ensures
        b == is_ws(c),
{
    ('\u{9}' <= c && c <= '\u{d}') || c == ' ' || c == '\u{85}' || c == '\u{a0}' || c
        == '\u{1680}' || ('\u{2000}' <= c && c <= '\u{200a}') || c == '\u{2028}' || c
        == '\u{2029}' || c == '\u{202f}' || c == '\u{205f}' || c == '\u{3000}'
}

/// `s` without its trailing whitespace.
pub open spec fn trim_end(s: Seq<char>) -> Seq<char>
    decreases s.len(),
{
    if s.len() > 0 && is_ws(s.last()) {
        trim_end(s.drop_last())
    } else {
        s
    }
}

/// Whether every character of `s` is whitespace.
pub open spec fn all_ws(s: Seq<char>) -> bool {
    forall|i: int| 0 <= i < s.len() ==> is_ws(#[trigger] s[i])
}

/// Removes trailing whitespace from `v`.
pub fn trim_end_in_place(v: &mut Vec<char>)
    ensures
        final(v)@ == trim_end(old(v)@),
{
    while v.len() > 0 && is_whitespace(v[v.len() - 1])
        invariant
            trim_end(v@) == trim_end(old(v)@),
        decreases v.len(),
    {
        let _ = v.pop();
    }
}

/// Whether every character of `v` is whitespace.
pub fn is_blank(v: &Vec<char>) -> (b: bool)
    ensures
        b == all_ws(v@),
{
    let mut i: usize = 0;
    while i < v.len()
        invariant
            i <= v.len(),
            forall|k: int| 0 <= k < i ==> is_ws(#[trigger] v@[k]),
        decreases v.len() - i,
    {
        if !is_whitespace(v[i]) {
            return false;
        }
        i = i + 1;
    }
    true
}

/// The digit character for `d` (below ten).
pub open spec fn digit_char(d: nat) -> char {
    (48 + d) as char
}

/// Whether `c` is an ASCII decimal digit.
pub open spec fn is_digit(c: char) -> bool {
    '0' <= c <= '9'
}

/// The value of the digit character `c`.
pub open spec fn digit_value(c: char) -> nat {
    (c as int - 48) as nat
}

/// The decimal numeral of `n`, without leading zeros.
pub open spec fn decimal(n: nat) -> Seq<char>
    decreases n,
{
    if n < 10 {
        seq![digit_char(n)]
    } else {
        decimal(n / 10).push(digit_char(n % 10))
    }
}

/// Appends the decimal numeral of `n` to `dst`.
pub fn push_decimal(dst: &mut Vec<char>, n: u64)
    ensures
        final(dst)@ == old(dst)@ + decimal(n as nat),
    decreases n,
{
    if n >= 10 {
        push_decimal(dst, n / 10);
    }
    let d: u8 = (n % 10) as u8;
    let c: char = (48u8 + d) as char;
    assert(c == digit_char((n % 10) as nat));
    dst.push(c);
}

/// Appends the numeral of a signed value: a minus sign and the decimal
/// numeral of its magnitude.
pub fn push_signed(dst: &mut Vec<char>, n: i64)
    ensures
        final(dst)@ == old(dst)@ + signed_decimal(n as int),
{
    if n < 0 {
        dst.push('-');
        let m: u64 = if n == i64::MIN {
            9223372036854775808u64
        } else {
            (-n) as u64
        };
        push_decimal(dst, m);
    } else {
        push_decimal(dst, n as u64);
    }
}

/// The numeral of a signed value.
pub open spec fn signed_decimal(n: int) -> Seq<char> {
    if n < 0 {
        seq!['-'] + decimal((-n) as nat)
    } else {
        decimal(n as nat)
    }
}

/// Whether `s` is a nonempty run of digits.
pub open spec fn all_digits(s: Seq<char>) -> bool {
    s.len() > 0 && forall|i: int| 0 <= i < s.len() ==> is_digit(#[trigger] s[i])
}

/// The value of a run of digits.
pub open spec fn digits_value(s: Seq<char>) -> nat
    decreases s.len(),
{
    if s.len() == 0 {
        0
    } else {
        digits_value(s.drop_last()) * 10 + digit_value(s.last())
    }
}

/// The magnitude an unsigned numeral denotes: an optional `+`, then one or
/// more digits (the grammar of `str::parse` for unsigned integers).
pub open spec fn unsigned_value(s: Seq<char>) -> Option<nat> {
    let body = if s.len() > 0 && s[0] == '+' {
        s.drop_first()
    } else {
        s
    };
    if all_digits(body) {
        Some(digits_value(body))
    } else {
        None
    }
}

/// The value a signed numeral denotes: an optional `+` or `-`, then one or
/// more digits.
pub open spec fn signed_value(s: Seq<char>) -> Option<int> {
    if s.len() > 0 && s[0] == '-' {
        let body = s.drop_first();
        if all_digits(body) {
            Some(-digits_value(body))
        } else {
            None
        }
    } else {
        match unsigned_value(s) {
            Some(v) => Some(v as int),
            None => None,
        }
    }
}

/// Extending a run of digits never lowers its value.
pub proof fn lemma_digits_value_monotone(s: Seq<char>, i: int)
    requires
        0 <= i <= s.len(),
    ensures
        digits_value(s.take(i)) <= digits_value(s),
    decreases s.len() - i,
{
    if i < s.len() {
        lemma_digits_value_monotone(s, i + 1);
        assert(s.take(i + 1).drop_last() == s.take(i));
    } else {
        assert(s.take(i) == s);
    }
}

/// The value of the digits of `s` from `start`, when no more than `max`;
/// `None` when some character is not a digit, the run is empty, or the value
/// exceeds `max`.
fn digits_bounded(s: &Vec<char>, start: usize, max: u64) -> (r: Option<u64>)
    requires
        start <= s.len(),
    ensures
        match r {
            Some(v) => all_digits(s@.skip(start as int)) && v == digits_value(s@.skip(start as int))
                && v <= max,
            None => !all_digits(s@.skip(start as int)) || digits_value(s@.skip(start as int))
                > max,
        },
{
    let ghost body = s@.skip(start as int);
    if start == s.len() {
        return None;
    }
    let mut i: usize = start;
    while i < s.len()
        invariant
            start <= i <= s.len(),
            body == s@.skip(start as int),
            forall|k: int| 0 <= k < i - start ==> is_digit(#[trigger] body[k]),
        decreases s.len() - i,
    {
        if !('0' <= s[i] && s[i] <= '9') {
            assert(!is_digit(body[i - start]));
            return None;
        }
        i = i + 1;
    }
    assert(all_digits(body));
    let mut acc: u64 = 0;
    let mut j: usize = start;
    while j < s.len()
        invariant
            start <= j <= s.len(),
            body == s@.skip(start as int),
            all_digits(body),
            acc == digits_value(body.take(j - start)),
            acc <= max,
        decreases s.len() - j,
    {
        assert(body[j - start] == s@[j as int]);
        assert(is_digit(body[j - start]));
        let d: u64 = (s[j] as u32 - 48) as u64;
        assert(body.take(j - start + 1).drop_last() == body.take(j - start));
        if d > max {
            proof {
                lemma_digits_value_monotone(body, j - start + 1);
                assert(digits_value(body.take(j - start + 1)) == acc * 10 + d);
            }
            return None;
        }
        if acc > (max - d) / 10 {
            proof {
                lemma_digits_value_monotone(body, j - start + 1);
                assert(digits_value(body.take(j - start + 1)) == acc * 10 + d);
                assert(acc * 10 + d > max) by (nonlinear_arith)
                    requires
                        acc > (max - d) / 10,
                        d <= max,
                ;
            }
            return None;
        }
        assert(acc * 10 + d <= max) by (nonlinear_arith)
            requires
                acc <= (max - d) / 10,
                d <= max,
        ;
        acc = acc * 10 + d;
        j = j + 1;
    }
    assert(body.take(s.len() - start) == body);
    Some(acc)
}

/// Parses an unsigned numeral no larger than `max`.
pub fn parse_unsigned(s: &Vec<char>, max: u64) -> (r: Option<u64>)
    ensures
        match r {
            Some(v) => unsigned_value(s@) == Some(v as nat) && v <= max,
            None => match unsigned_value(s@) {
                Some(n) => n > max,
                None => true,
            },
        },
{
    let start: usize = if s.len() > 0 && s[0] == '+' {
        1
    } else {
        0
    };
    assert(s@.skip(0) == s@);
    assert(start == 1 ==> s@.skip(1) == s@.drop_first());
    digits_bounded(s, start, max)
}

/// Parses a signed numeral whose value lies in `-(neg_max)..=pos_max`.
pub fn parse_signed(s: &Vec<char>, neg_max: u64, pos_max: u64) -> (r: Option<i64>)
    requires
        neg_max <= i64::MAX,
        pos_max <= i64::MAX,
    ensures
        match r {
            Some(v) => signed_value(s@) == Some(v as int) && -(neg_max as int) <= v <= pos_max,
            None => match signed_value(s@) {
                Some(n) => n < -(neg_max as int) || n > pos_max,
                None => true,
            },
        },
{
    if s.len() > 0 && s[0] == '-' {
        assert(s@.skip(1) == s@.drop_first());
        match digits_bounded(s, 1, neg_max) {
            Some(m) => Some(-(m as i64)),
            None => None,
        }
    } else {
        match parse_unsigned(s, pos_max) {
            Some(m) => Some(m as i64),
            None => None,
        }
    }
}

/// A digit character is a digit and reads back as its value.
pub proof fn lemma_digit_char(d: nat)
    requires
        d < 10,
    ensures
        is_digit(digit_char(d)),
        digit_value(digit_char(d)) == d,
        digit_char(d) != '+',
        digit_char(d) != '-',
{
    assert((48 + d) as char as int == 48 + d);
}

/// The numeral `push_decimal` writes reads back as the same value.
pub proof fn law_decimal_round_trip(n: nat)
    ensures
        all_digits(decimal(n)),
        digits_value(decimal(n)) == n,
        unsigned_value(decimal(n)) == Some(n),
    decreases n,
{
    lemma_digit_char(n % 10);
    if n < 10 {
        assert(decimal(n).drop_last() == Seq::<char>::empty());
    }
    if n >= 10 {
        law_decimal_round_trip(n / 10);
        let d = decimal(n);
        assert(d.drop_last() == decimal(n / 10));
        assert forall|i: int| 0 <= i < d.len() implies is_digit(#[trigger] d[i]) by {
            if i < d.len() - 1 {
                assert(d[i] == decimal(n / 10)[i]);
            }
        }
        assert(d.last() == digit_char(n % 10));
        assert(digits_value(d) == (n / 10) * 10 + n % 10);
        assert(is_digit(d[0]));
    } else {
        let d = decimal(n);
        assert(d[0] == digit_char(n));
        assert(d.drop_last() == Seq::<char>::empty());
        assert(digits_value(Seq::<char>::empty()) == 0);
        assert(digits_value(d) == n);
        assert(all_digits(d));
    }
}

/// A signed numeral reads back as the same value.
pub proof fn law_signed_round_trip(n: int)
    ensures
        signed_value(signed_decimal(n)) == Some(n),
{
    if n < 0 {
        law_decimal_round_trip((-n) as nat);
        let s = signed_decimal(n);
        assert(s.drop_first() == decimal((-n) as nat));
    } else {
        law_decimal_round_trip(n as nat);
        assert(decimal(n as nat)[0] != '-');
    }
}

/// `s` without one trailing carriage return.
pub open spec fn strip_cr(s: Seq<char>) -> Seq<char> {
    if s.len() > 0 && s.last() == '\r' {
        s.drop_last()
    } else {
        s
    }
}

/// The lines of `s` as `str::lines` yields them, given the line `cur`
/// being read: split at each newline, a carriage return before the newline
/// dropped, no empty line after a final newline.
pub open spec fn lines_from(s: Seq<char>, cur: Seq<char>) -> Seq<Seq<char>>
    decreases s.len(),
{
    if s.len() == 0 {
        if cur.len() > 0 {
            seq![cur]
        } else {
            Seq::empty()
        }
    } else if s[0] == '\n' {
        seq![strip_cr(cur)] + lines_from(s.drop_first(), Seq::empty())
    } else {
        lines_from(s.drop_first(), cur.push(s[0]))
    }
}

/// The lines of `s`.
pub open spec fn text_lines(s: Seq<char>) -> Seq<Seq<char>> {
    lines_from(s, Seq::empty())
}

/// A line and its newline read back as that line.
pub proof fn lemma_lines_line(l: Seq<char>, cur: Seq<char>)
    requires
        !l.contains('\n'),
    ensures
        lines_from(l + seq!['\n'], cur) == seq![strip_cr(cur + l)],
    decreases l.len(),
{
    let t = l + seq!['\n'];
    if l.len() == 0 {
        assert(t == seq!['\n']);
        assert(t.drop_first() == Seq::<char>::empty());
        assert(cur + l == cur);
        assert(lines_from(Seq::<char>::empty(), Seq::<char>::empty()) == Seq::<Seq<char>>::empty());
        assert(seq![strip_cr(cur)] + Seq::<Seq<char>>::empty() == seq![strip_cr(cur)]);
    } else {
        assert(t[0] == l[0]);
        assert(t.drop_first() == l.drop_first() + seq!['\n']);
        assert(!l.drop_first().contains('\n')) by {
            if l.drop_first().contains('\n') {
                let k = choose|k: int| 0 <= k < l.drop_first().len() && l.drop_first()[k] == '\n';
                assert(l[k + 1] == '\n');
            }
        }
        lemma_lines_line(l.drop_first(), cur.push(l[0]));
        assert(cur.push(l[0]) + l.drop_first() == cur + l);
    }
}

/// The lines of text ending in a newline, followed by more text, are its
/// own lines followed by those of the rest.
pub proof fn lemma_lines_concat(x: Seq<char>, y: Seq<char>, cur: Seq<char>)
    requires
        x.len() > 0,
        x.last() == '\n',
    ensures
        lines_from(x + y, cur) == lines_from(x, cur) + text_lines(y),
    decreases x.len(),
{
    let xy = x + y;
    assert(xy[0] == x[0]);
    assert(xy.drop_first() == x.drop_first() + y);
    if x[0] == '\n' {
        if x.len() == 1 {
            assert(x.drop_first() == Seq::<char>::empty());
            assert(x.drop_first() + y == y);
        } else {
            lemma_lines_concat(x.drop_first(), y, Seq::empty());
            assert(seq![strip_cr(cur)] + (lines_from(x.drop_first(), Seq::empty()) + text_lines(y)) == (
            seq![strip_cr(cur)] + lines_from(x.drop_first(), Seq::empty())) + text_lines(y));
        }
    } else {
        lemma_lines_concat(x.drop_first(), y, cur.push(x[0]));
    }
}

} // verus!
