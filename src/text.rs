use vstd::prelude::*;
use crate::value::{ColumnType, Val, Value};

verus! {

pub open spec fn is_digit(c: char) -> bool {
    '0' <= c && c <= '9'
}

pub open spec fn digit_value(c: char) -> int {
    (c as int) - ('0' as int)
}

pub open spec fn all_digits(s: Seq<char>) -> bool {
    forall|i: int| 0 <= i < s.len() ==> is_digit(#[trigger] s[i])
}

/// The number a string of decimal digits denotes.
pub open spec fn digits_value(s: Seq<char>) -> int
    decreases s.len(),
{
    if s.len() == 0 {
        0
    } else {
        digits_value(s.drop_last()) * 10 + digit_value(s.last())
    }
}

/// The integer a decimal text with an optional sign denotes, if it is one.
pub open spec fn int_text_value(s: Seq<char>) -> Option<int> {
    if s.len() > 0 && (s[0] == '+' || s[0] == '-') {
        let d = s.drop_first();
        if d.len() > 0 && all_digits(d) {
            Some(if s[0] == '-' { -digits_value(d) } else { digits_value(d) })
        } else {
            None
        }
    } else if s.len() > 0 && all_digits(s) {
        Some(digits_value(s))
    } else {
        None
    }
}

/// A 64-bit integer written in base 10 with an optional leading sign.
pub open spec fn parse_int_spec(s: Seq<char>) -> Option<i64> {
    match int_text_value(s) {
        Some(v) => if i64::MIN <= v && v <= i64::MAX {
            Some(v as i64)
        } else {
            None
        },
        None => None,
    }
}

pub open spec fn digit_char(d: int) -> char {
    ((d + ('0' as int)) as u32) as char
}

/// Decimal digits of a natural number, without leading zeros.
pub open spec fn nat_text(n: nat) -> Seq<char>
    decreases n,
{
    if n < 10 {
        seq![digit_char(n as int)]
    } else {
        nat_text(n / 10).push(digit_char((n % 10) as int))
    }
}

/// The decimal rendering of an integer, with a '-' for negatives.
pub open spec fn int_text(i: int) -> Seq<char> {
    if i < 0 {
        seq!['-'] + nat_text((-i) as nat)
    } else {
        nat_text(i as nat)
    }
}

pub open spec fn true_text() -> Seq<char> {
    seq!['t', 'r', 'u', 'e']
}

pub open spec fn false_text() -> Seq<char> {
    seq!['f', 'a', 'l', 's', 'e']
}

pub open spec fn bool_text(b: bool) -> Seq<char> {
    if b { true_text() } else { false_text() }
}

pub open spec fn parse_bool_spec(s: Seq<char>) -> Option<bool> {
    if s == true_text() {
        Some(true)
    } else if s == false_text() {
        Some(false)
    } else {
        None
    }
}

/// A non-empty raw field read as a value of the given type.
pub open spec fn parse_cell_spec(t: ColumnType, s: Seq<char>) -> Option<Val> {
    match t {
        ColumnType::Boolean => match parse_bool_spec(s) {
            Some(b) => Some(Val::Boolean(b)),
            None => None,
        },
        ColumnType::Integer => match parse_int_spec(s) {
            Some(i) => Some(Val::Integer(i)),
            None => None,
        },
        ColumnType::Str => Some(Val::Str(s)),
    }
}

proof fn lemma_digits_value_nonneg(s: Seq<char>)
    requires
        all_digits(s),
    ensures
        digits_value(s) >= 0,
    decreases s.len(),
{
    if s.len() > 0 {
        assert(all_digits(s.drop_last())) by {
            assert forall|i: int| 0 <= i < s.drop_last().len() implies is_digit(
                #[trigger] s.drop_last()[i],
            ) by {
                assert(s.drop_last()[i] == s[i]);
            }
        }
        lemma_digits_value_nonneg(s.drop_last());
        assert(is_digit(s[s.len() - 1]));
    }
}

/// Reads the digits `s[start..]` into a number, or `None` once it exceeds `bound`.
fn read_digits(s: &Vec<char>, start: usize, bound: u64) -> (r: Option<u64>)
    requires
        start < s.len(),
        bound >= 9,
    ensures
        r matches Some(x) ==> x <= bound,
        all_digits(s@.skip(start as int)) && digits_value(s@.skip(start as int)) <= bound
            ==> r == Some(digits_value(s@.skip(start as int)) as u64),
        !(all_digits(s@.skip(start as int)) && digits_value(s@.skip(start as int)) <= bound)
            ==> r is None,
{
    let ghost d = s@.skip(start as int);
    let mut i: usize = start;
    let mut v: u64 = 0;
    let mut big = false;
    assert(d.subrange(0, 0) =~= Seq::<char>::empty());
    while i < s.len()
        invariant
            start <= i <= s.len(),
            bound >= 9,
            d == s@.skip(start as int),
            all_digits(d.subrange(0, i - start)),
            big ==> digits_value(d.subrange(0, i - start)) > bound,
            !big ==> v == digits_value(d.subrange(0, i - start)) && v <= bound,
        decreases s.len() - i,
    {
        let c = s[i];
        if !('0' <= c && c <= '9') {
            assert(d[i - start] == c);
            return None;
        }
        let ghost pre = d.subrange(0, i - start);
        let ghost next = d.subrange(0, i + 1 - start);
        assert(next.drop_last() =~= pre);
        assert(next.last() == c);
        assert(all_digits(next)) by {
            assert forall|j: int| 0 <= j < next.len() implies is_digit(#[trigger] next[j]) by {
                if j < pre.len() {
                    assert(next[j] == pre[j]);
                }
            }
        }
        proof {
            lemma_digits_value_nonneg(pre);
        }
        let dv: u64 = (c as u32 - '0' as u32) as u64;
        if !big {
            if v > (bound - dv) / 10 {
                assert(digits_value(next) > bound) by (nonlinear_arith)
                    requires
                        digits_value(next) == v * 10 + dv,
                        v > (bound - dv) / 10,
                        dv <= bound,
                ;
                big = true;
            } else {
                assert(v * 10 + dv <= bound) by (nonlinear_arith)
                    requires
                        v <= (bound - dv) / 10,
                        dv <= bound,
                ;
                v = v * 10 + dv;
            }
        } else {
            assert(digits_value(next) > bound) by (nonlinear_arith)
                requires
                    digits_value(next) == digits_value(pre) * 10 + dv,
                    digits_value(pre) > bound,
                    dv >= 0,
            ;
        }
        i = i + 1;
    }
    assert(d.subrange(0, i - start) =~= d);
    if big {
        None
    } else {
        Some(v)
    }
}

/// Parses a base-10 64-bit integer with an optional leading sign.
pub fn parse_int(s: &Vec<char>) -> (r: Option<i64>)
    ensures
        r == parse_int_spec(s@),
{
    if s.len() == 0 {
        return None;
    }
    let c = s[0];
    if c == '+' || c == '-' {
        if s.len() == 1 {
            return None;
        }
        assert(s@.skip(1) =~= s@.drop_first());
        let neg = c == '-';
        let bound: u64 = if neg { 9223372036854775808 } else { 9223372036854775807 };
        match read_digits(s, 1, bound) {
            Some(m) => {
                proof {
                    lemma_digits_value_nonneg(s@.drop_first());
                }
                if neg {
                    if m == 9223372036854775808 {
                        Some(i64::MIN)
                    } else {
                        Some(-(m as i64))
                    }
                } else {
                    Some(m as i64)
                }
            },
            None => {
                proof {
                    if all_digits(s@.drop_first()) {
                        lemma_digits_value_nonneg(s@.drop_first());
                    }
                }
                None
            },
        }
    } else {
        assert(s@.skip(0) =~= s@);
        let r = read_digits(s, 0, 9223372036854775807);
        match r {
            Some(m) => {
                proof {
                    lemma_digits_value_nonneg(s@);
                }
                Some(m as i64)
            },
            None => {
                proof {
                    if all_digits(s@) {
                        lemma_digits_value_nonneg(s@);
                    }
                }
                None
            },
        }
    }
}

fn digit_to_char(d: u64) -> (c: char)
    requires
        d < 10,
    ensures
        c == digit_char(d as int),
{
    match d {
        0 => '0',
        1 => '1',
        2 => '2',
        3 => '3',
        4 => '4',
        5 => '5',
        6 => '6',
        7 => '7',
        8 => '8',
        _ => '9',
    }
}

fn push_nat_text(n: u64, out: &mut Vec<char>)
    ensures
        final(out)@ == old(out)@ + nat_text(n as nat),
    decreases n,
{
    if n >= 10 {
        push_nat_text(n / 10, out);
    }
    let c = digit_to_char(n % 10);
    out.push(c);
    proof {
        assert(c == digit_char((n % 10) as int));
        if n >= 10 {
            assert(old(out)@ + nat_text(n as nat) =~= old(out)@ + nat_text((n / 10) as nat) + seq![c]);
        } else {
            assert(n % 10 == n);
        }
    }
}

/// The decimal text of an integer.
pub fn int_to_chars(i: i64) -> (r: Vec<char>)
    ensures
        r@ == int_text(i as int),
{
    let mut out: Vec<char> = Vec::new();
    if i < 0 {
        out.push('-');
        let m: u64 = (-(i as i128)) as u64;
        push_nat_text(m, &mut out);
    } else {
        push_nat_text(i as u64, &mut out);
    }
    out
}

pub fn bool_to_chars(b: bool) -> (r: Vec<char>)
    ensures
        r@ == bool_text(b),
{
    let r = if b {
        vec!['t', 'r', 'u', 'e']
    } else {
        vec!['f', 'a', 'l', 's', 'e']
    };
    assert(r@ =~= bool_text(b));
    r
}

pub fn parse_bool(s: &Vec<char>) -> (r: Option<bool>)
    ensures
        r == parse_bool_spec(s@),
{
    let t = vec!['t', 'r', 'u', 'e'];
    let f = vec!['f', 'a', 'l', 's', 'e'];
    assert(t@ =~= true_text());
    assert(f@ =~= false_text());
    if crate::value::chars_equal(s, &t) {
        Some(true)
    } else if crate::value::chars_equal(s, &f) {
        Some(false)
    } else {
        None
    }
}

/// Reads a non-empty raw field as a value of type `t`.
pub fn parse_cell(t: ColumnType, s: &Vec<char>) -> (r: Option<Value>)
    ensures
        match r {
            Some(v) => parse_cell_spec(t, s@) == Some(v@),
            None => parse_cell_spec(t, s@) is None,
        },
{
    match t {
        ColumnType::Boolean => match parse_bool(s) {
            Some(b) => Some(Value::Boolean(b)),
            None => None,
        },
        ColumnType::Integer => match parse_int(s) {
            Some(i) => Some(Value::Integer(i)),
            None => None,
        },
        ColumnType::Str => Some(Value::Str(crate::value::copy_chars(s))),
    }
}

} // verus!
