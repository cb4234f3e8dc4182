//! Small verified string utilities shared by the other modules: string
//! equality, decimal rendering of integers, and parsing of decimal integers.

use vstd::prelude::*;

verus! {

/// Relies on `String::push`: appends one character at the end of the string.
#[verifier::external_body]
pub fn push_char(s: &mut String, c: char)
    ensures
        final(s)@ == old(s)@.push(c),
{
    s.push(c);
}

/// Equality of two string slices, as equality of their character sequences.
pub fn str_eq(a: &str, b: &str) -> (r: bool)
    ensures
        r == (a@ == b@),
{
    let x: String = a.to_owned();
    let y: String = b.to_owned();
    x == y
}

/// Decimal digit character for `d` in `0 .. 10`.
pub open spec fn spec_digit(d: int) -> char {
    if d == 0 {
        '0'
    } else if d == 1 {
        '1'
    } else if d == 2 {
        '2'
    } else if d == 3 {
        '3'
    } else if d == 4 {
        '4'
    } else if d == 5 {
        '5'
    } else if d == 6 {
        '6'
    } else if d == 7 {
        '7'
    } else if d == 8 {
        '8'
    } else {
        '9'
    }
}

/// Decimal digits of a nonnegative integer, most significant first.
pub open spec fn spec_dec(n: int) -> Seq<char>
    decreases n,
{
    if n < 10 {
        seq![spec_digit(n)]
    } else {
        spec_dec(n / 10).push(spec_digit(n % 10))
    }
}

/// Decimal rendering of a signed integer: a `-` sign followed by the digits
/// of the magnitude, or just the digits when nonnegative.
pub open spec fn spec_dec_signed(n: int) -> Seq<char> {
    if n < 0 {
        seq!['-'] + spec_dec(-n)
    } else {
        spec_dec(n)
    }
}

fn digit_char(d: u64) -> (c: char)
    requires
        d < 10,
    ensures
        c == spec_digit(d as int),
{
    match d {
        0 => '0',
        1 => '1',
        2 => '2',
        3 => '3',
        4 => '4',
        5 => '5',
        6 => '6',
        7 => '7',
        8 => '8',
        _ => '9',
    }
}

/// Renders `n` in decimal.
pub fn u64_to_dec(n: u64) -> (r: String)
    ensures
        r@ == spec_dec(n as int),
    decreases n,
{
    if n < 10 {
        let mut s = String::new();
        push_char(&mut s, digit_char(n));
        proof {
            assert(s@ =~= seq![spec_digit(n as int)]);
        }
        s
    } else {
        let mut s = u64_to_dec(n / 10);
        push_char(&mut s, digit_char(n % 10));
        s
    }
}

/// Renders `n` in decimal, with a leading `-` when negative.
pub fn i64_to_dec(n: i64) -> (r: String)
    ensures
        r@ == spec_dec_signed(n as int),
{
    if n >= 0 {
        u64_to_dec(n as u64)
    } else {
        let m: u64 = ((-(n + 1)) as u64) + 1;
        assert(m as int == -(n as int));
        let mut s = String::new();
        push_char(&mut s, '-');
        s.append(u64_to_dec(m).as_str());
        proof {
            assert(s@ =~= seq!['-'] + spec_dec(m as int));
        }
        s
    }
}

/// `c` is a decimal digit.
pub open spec fn spec_is_digit(c: char) -> bool {
    48 <= c as int <= 57
}

/// The numeric value of a digit sequence, most significant first.
pub open spec fn spec_digits_val(s: Seq<char>) -> int
    decreases s.len(),
{
    if s.len() == 0 {
        0
    } else {
        spec_digits_val(s.drop_last()) * 10 + (s.last() as int - 48)
    }
}

/// All characters of `s` are decimal digits.
pub open spec fn spec_all_digits(s: Seq<char>) -> bool {
    forall|i: int| 0 <= i < s.len() ==> spec_is_digit(#[trigger] s[i])
}

/// The value parsed from a decimal numeral: an optional `+` sign followed by
/// at least one digit, with a value that fits in a `u64`.  `None` when the
/// text is not such a numeral.
pub open spec fn spec_parse_u64(s: Seq<char>) -> Option<int> {
    let t = if s.len() > 0 && s[0] == '+' {
        s.skip(1)
    } else {
        s
    };
    if t.len() > 0 && spec_all_digits(t) && spec_digits_val(t) <= u64::MAX {
        Some(spec_digits_val(t))
    } else {
        None
    }
}

/// Position of the first occurrence of `c`, or `s.len()` when `c` does not
/// occur.
pub open spec fn first_at(s: Seq<char>, c: char) -> int
    decreases s.len(),
{
    if s.len() == 0 {
        0
    } else if s[0] == c {
        0
    } else {
        1 + first_at(s.skip(1), c)
    }
}

/// A scan that saw `m` other characters and then `c` (or the end) has found
/// the first occurrence.
pub proof fn lemma_first_at_scan(s: Seq<char>, c: char, m: int)
    requires
        0 <= m <= s.len(),
        forall|k: int| 0 <= k < m ==> s[k] != c,
        m < s.len() ==> s[m] == c,
    ensures
        first_at(s, c) == m,
    decreases m,
{
    if m > 0 {
        lemma_first_at_scan(s.skip(1), c, m - 1);
    }
}

proof fn lemma_digits_val_nonneg(s: Seq<char>)
    requires
        spec_all_digits(s),
    ensures
        spec_digits_val(s) >= 0,
    decreases s.len(),
{
    if s.len() > 0 {
        assert(spec_all_digits(s.drop_last()));
        lemma_digits_val_nonneg(s.drop_last());
    }
}

proof fn lemma_digits_val_prefix(s: Seq<char>, i: int)
    requires
        spec_all_digits(s),
        0 <= i <= s.len(),
    ensures
        spec_digits_val(s) >= spec_digits_val(s.take(i)),
    decreases s.len(),
{
    if i < s.len() {
        assert(spec_all_digits(s.drop_last()));
        assert(s.drop_last().take(i) =~= s.take(i));
        lemma_digits_val_prefix(s.drop_last(), i);
        lemma_digits_val_nonneg(s.drop_last());
        assert(s.last() as int - 48 >= 0);
    } else {
        assert(s.take(i) =~= s);
    }
}

fn digit_of(c: char) -> (r: Option<u64>)
    ensures
        match r {
            Some(d) => spec_is_digit(c) && d as int == c as int - 48,
            None => !spec_is_digit(c),
        },
{
    let u = c as u32;
    if 48 <= u && u <= 57 {
        Some((u - 48) as u64)
    } else {
        None
    }
}

/// Parses a decimal numeral (optional `+` sign, then digits) into a `u64`.
pub fn parse_u64(s: &str) -> (r: Option<u64>)
    ensures
        match r {
            Some(v) => spec_parse_u64(s@) == Some(v as int),
            None => spec_parse_u64(s@) is None,
        },
{
    let len = s.unicode_len();
    let start: usize = if len > 0 && s.get_char(0) == '+' {
        1
    } else {
        0
    };
    let ghost t = if s@.len() > 0 && s@[0] == '+' {
        s@.skip(1)
    } else {
        s@
    };
    proof {
        assert(s@.skip(0) =~= s@);
    }
    if len == start {
        return None;
    }
    let mut acc: u64 = 0;
    let mut i: usize = start;
    while i < len
        invariant
            start <= i <= len,
            len == s@.len(),
            (s@.len() > 0 && s@[0] == '+') ==> start == 1 && t == s@.skip(1),
            !(s@.len() > 0 && s@[0] == '+') ==> start == 0 && t == s@,
            t.len() == len - start,
            spec_all_digits(t.take(i - start)),
            acc as int == spec_digits_val(t.take(i - start)),
        decreases len - i,
    {
        let c = s.get_char(i);
        proof {
            assert(t[i - start] == s@[i as int]);
        }
        match digit_of(c) {
            None => {
                assert(!spec_is_digit(t[i - start]));
                return None;
            },
            Some(d) => {
                if acc > (u64::MAX - d) / 10 {
                    // The value no longer fits in a u64; the full numeral can
                    // then only be larger.
                    proof {
                        let p = t.take(i - start + 1);
                        assert(p.drop_last() =~= t.take(i - start));
                        assert(p.last() == t[i - start]);
                        assert(spec_digits_val(p) == acc as int * 10 + d);
                        assert(acc as int * 10 + d > u64::MAX) by {
                            assert(acc as int > (u64::MAX - d) / 10);
                            assert(acc as int >= (u64::MAX - d) / 10 + 1);
                            assert(((u64::MAX - d) / 10 + 1) * 10 >= u64::MAX - d + 1) by (nonlinear_arith);
                            assert(acc as int * 10 >= ((u64::MAX - d) / 10 + 1) * 10) by (nonlinear_arith)
                                requires acc as int >= (u64::MAX - d) / 10 + 1;
                        }
                        if spec_all_digits(t) {
                            lemma_digits_val_prefix(t, i - start + 1);
                        }
                    }
                    return None;
                }
                proof {
                    assert(acc as int * 10 + d <= u64::MAX) by {
                        assert(acc as int <= (u64::MAX - d) / 10);
                        assert(((u64::MAX - d) as int / 10) * 10 <= u64::MAX - d) by (nonlinear_arith);
                        assert(acc as int * 10 <= ((u64::MAX - d) as int / 10) * 10) by (nonlinear_arith)
                            requires acc as int <= (u64::MAX - d) as int / 10;
                    }
                    let p = t.take(i - start + 1);
                    assert(p.drop_last() =~= t.take(i - start));
                    assert(p.last() == t[i - start]);
                }
                acc = acc * 10 + d;
            },
        }
        i = i + 1;
    }
    proof {
        assert(t.take(i - start) =~= t);
    }
    Some(acc)
}

} // verus!
