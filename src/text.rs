//! Characters, decimal integers and string building.
use vstd::prelude::*;
use vstd::string::StringExecFns;

verus! {

/// Relies on `String::push`: the character is appended at the end.
#[verifier::external_body]
pub(crate) fn push_char(s: &mut String, c: char)
    ensures
        final(s)@ == old(s)@.push(c),
{
    s.push(c);
}

/// A fresh string holding the characters of a literal.
pub(crate) fn owned(s: &str) -> (r: String)
    ensures
        r@ == s@,
{
    s.to_owned()
}

/// `a` followed by `b`.
pub(crate) fn concat_str(a: &String, b: &str) -> (r: String)
    ensures
        r@ == a@ + b@,
{
    let mut r = a.clone();
    r.append(b);
    r
}

/// A string holding the given characters in order.
pub(crate) fn string_of(cs: &Vec<char>) -> (r: String)
    ensures
        r@ == cs@,
{
    let mut r = String::new();
    let mut i: usize = 0;
    while i < cs.len()
        invariant
            i <= cs.len(),
            r@ == cs@.take(i as int),
        decreases cs.len() - i,
    {
        push_char(&mut r, cs[i]);
        i = i + 1;
        assert(r@ =~= cs@.take(i as int));
    }
    assert(cs@.take(i as int) =~= cs@);
    r
}

/// The characters of a string, in order.
pub(crate) fn chars_of(s: &String) -> (r: Vec<char>)
    ensures
        r@ == s@,
{
    let mut r: Vec<char> = Vec::new();
    for c in it: s.chars()
        invariant
            r@ == it.seq().take(it.index() as int),
    {
        r.push(c);
    }
    assert(r@ =~= s@);
    r
}

pub open spec fn is_digit(c: char) -> bool {
    '0' <= c && c <= '9'
}

pub open spec fn digit_value(c: char) -> int {
    c as int - '0' as int
}

pub open spec fn digit_char(d: int) -> char {
    (d + '0' as int) as char
}

/// The value of a run of decimal digits, most significant first.
pub open spec fn digits_value(s: Seq<char>) -> int
    decreases s.len(),
{
    if s.len() == 0 {
        0
    } else {
        10 * digits_value(s.drop_last()) + digit_value(s.last())
    }
}

pub open spec fn all_digits(s: Seq<char>) -> bool {
    s.len() > 0 && forall|i: int| 0 <= i < s.len() ==> is_digit(#[trigger] s[i])
}

/// The integer a word denotes: an optional sign and one or more decimal
/// digits, within the range of `i64`.
pub open spec fn parse_integer(s: Seq<char>) -> Option<i64> {
    let negative = s.len() > 0 && s[0] == '-';
    let signed = s.len() > 0 && (s[0] == '-' || s[0] == '+');
    let body = if signed { s.skip(1) } else { s };
    let v = if negative { -digits_value(body) } else { digits_value(body) };
    if all_digits(body) && i64::MIN <= v <= i64::MAX {
        Some(v as i64)
    } else {
        None
    }
}

/// Decimal digits of a natural number, without leading zeros.
pub open spec fn nat_text(n: nat) -> Seq<char>
    decreases n,
{
    if n < 10 {
        seq![digit_char(n as int)]
    } else {
        nat_text(n / 10).push(digit_char((n % 10) as int))
    }
}

/// How an integer is printed: a minus sign for negatives, then its digits.
pub open spec fn int_text(n: int) -> Seq<char> {
    if n < 0 {
        seq!['-'] + nat_text((-n) as nat)
    } else {
        nat_text(n as nat)
    }
}

proof fn lemma_digits_value_prefix(s: Seq<char>, i: int)
    requires
        0 <= i < s.len(),
    ensures
        digits_value(s.take(i + 1)) == 10 * digits_value(s.take(i)) + digit_value(s[i]),
{
    assert(s.take(i + 1).drop_last() =~= s.take(i));
}

proof fn lemma_digits_value_grows(s: Seq<char>, i: int, j: int)
    requires
        0 <= i <= j <= s.len(),
        forall|k: int| 0 <= k < s.len() ==> is_digit(#[trigger] s[k]),
    ensures
        digits_value(s.take(i)) <= digits_value(s.take(j)),
    decreases j - i,
{
    if i < j {
        lemma_digits_value_grows(s, i, j - 1);
        lemma_digits_value_prefix(s, j - 1);
        assert(digits_value(s.take(j - 1)) >= 0) by {
            lemma_digits_value_nonneg(s.take(j - 1));
        }
    }
}

proof fn lemma_digits_value_nonneg(s: Seq<char>)
    requires
        forall|k: int| 0 <= k < s.len() ==> is_digit(#[trigger] s[k]),
    ensures
        digits_value(s) >= 0,
    decreases s.len(),
{
    if s.len() > 0 {
        lemma_digits_value_nonneg(s.drop_last());
    }
}

/// Reads a word as an integer literal, if it is one.
pub fn parse_integer_word(s: &Vec<char>) -> (r: Option<i64>)
    ensures
        r == parse_integer(s@),
{
    let n = s.len();
    let negative = n > 0 && s[0] == '-';
    let signed = n > 0 && (s[0] == '-' || s[0] == '+');
    let start: usize = if signed { 1 } else { 0 };
    let ghost body = if signed { s@.skip(1) } else { s@ };
    if start >= n {
        return None;
    }
    let limit: u128 = 0x8000_0000_0000_0000;
    let mut acc: u128 = 0;
    assert(body =~= s@.skip(start as int));
    assert(body.take(0) =~= Seq::<char>::empty());
    let mut i: usize = start;
    while i < n
        invariant
            start <= i <= n,
            n == s@.len(),
            start == 1 || start == 0,
            body == s@.skip(start as int),
            signed == (s@.len() > 0 && (s@[0] == '-' || s@[0] == '+')),
            negative == (s@.len() > 0 && s@[0] == '-'),
            body == (if signed { s@.skip(1) } else { s@ }),
            forall|k: int| 0 <= k < i - start ==> is_digit(#[trigger] body[k]),
            acc == digits_value(body.take(i - start)),
            acc <= limit,
            limit == 0x8000_0000_0000_0000u128,
        decreases n - i,
    {
        let c = s[i];
        assert(c == body[i - start]);
        if !('0' <= c && c <= '9') {
            assert(!is_digit(body[i - start]));
            assert(!all_digits(body));
            return None;
        }
        let d = (c as u32 - '0' as u32) as u128;
        proof {
            lemma_digits_value_prefix(body, i - start);
            assert(acc * 10 <= 0x8000_0000_0000_0000u128 * 10) by (nonlinear_arith)
                requires
                    acc <= 0x8000_0000_0000_0000u128,
            ;
        }
        acc = acc * 10 + d;
        i = i + 1;
        if acc > limit {
            proof {
                assert forall|k: int| 0 <= k < i - start implies is_digit(#[trigger] body[k]) by {}
                if all_digits(body) {
                    lemma_digits_value_grows(body, i - start, body.len() as int);
                    assert(body.take(body.len() as int) =~= body);
                }
            }
            return None;
        }
    }
    assert(body.take(n - start) =~= body);
    assert(all_digits(body));
    if negative {
        Some((0 - acc as i128) as i64)
    } else if acc == limit {
        None
    } else {
        Some(acc as i64)
    }
}

fn digit_to_char(d: u64) -> (c: char)
    requires
        d < 10,
    ensures
        c == digit_char(d as int),
{
    match d {
        0 => '0',
        1 => '1',
        2 => '2',
        3 => '3',
        4 => '4',
        5 => '5',
        6 => '6',
        7 => '7',
        8 => '8',
        _ => '9',
    }
}

fn push_natural(m: u64, out: &mut String)
    ensures
        final(out)@ == old(out)@ + nat_text(m as nat),
    decreases m,
{
    if m >= 10 {
        push_natural(m / 10, out);
    }
    let c = digit_to_char(m % 10);
    push_char(out, c);
    proof {
        if m < 10 {
            assert(nat_text(m as nat) == seq![digit_char(m as int)]);
        }
    }
    assert(final(out)@ =~= old(out)@ + nat_text(m as nat));
}

/// Writes an integer in decimal.
pub fn integer_text(n: i64) -> (r: String)
    ensures
        r@ == int_text(n as int),
{
    let mut r = String::new();
    if n < 0 {
        push_char(&mut r, '-');
        push_natural((0 - n as i128) as u64, &mut r);
    } else {
        push_natural(n as u64, &mut r);
    }
    r
}

} // verus!
