//! Decimal numerals: reading a worker count from a command-line word
//! and writing a port number into an output line.

use vstd::prelude::*;

verus! {

/// `c` is one of the ten decimal digit characters.
pub open spec fn is_dec_digit(c: char) -> bool {
    '0' as int <= c as int <= '9' as int
}

/// The numeric value of a decimal digit character.
pub open spec fn digit_val(c: char) -> int {
    c as int - '0' as int
}

/// The digit character for a value in `0 ..= 9`.
pub open spec fn dec_digit(d: int) -> char {
    if d == 0 {
        '0'
    } else if d == 1 {
        '1'
    } else if d == 2 {
        '2'
    } else if d == 3 {
        '3'
    } else if d == 4 {
        '4'
    } else if d == 5 {
        '5'
    } else if d == 6 {
        '6'
    } else if d == 7 {
        '7'
    } else if d == 8 {
        '8'
    } else {
        '9'
    }
}

/// The number a sequence of digit characters denotes, read left to
/// right with the most significant digit first.
pub open spec fn dec_value(s: Seq<char>) -> int
    decreases s.len(),
{
    if s.len() == 0 {
        0
    } else {
        dec_value(s.drop_last()) * 10 + digit_val(s.last())
    }
}

/// The canonical decimal numeral of a nonnegative number: no sign, no
/// leading zero except for the single digit of zero itself.
pub open spec fn dec_of(n: int) -> Seq<char>
    recommends
        0 <= n,
    decreases n,
{
    if n < 10 {
        seq![dec_digit(n)]
    } else {
        dec_of(n / 10).push(dec_digit(n % 10))
    }
}

/// The digits of a command-line number, with an optional leading plus
/// sign stripped.
pub open spec fn numeral_body(s: Seq<char>) -> Seq<char> {
    if s.len() > 0 && s[0] == '+' {
        s.subrange(1, s.len() as int)
    } else {
        s
    }
}

/// `s` is a decimal numeral a `u16` worker count can be read from: an
/// optional leading plus sign, then at least one digit, denoting a
/// value of at most `u16::MAX`.
pub open spec fn is_u16_numeral(s: Seq<char>) -> bool {
    let b = numeral_body(s);
    b.len() > 0 && (forall|k: int| 0 <= k < b.len() ==> is_dec_digit(#[trigger] b[k]))
        && dec_value(b) <= u16::MAX
}

/// Extending a numeral to the right by digit characters never shrinks
/// its value.
pub proof fn lemma_dec_value_extend(s: Seq<char>, m: int)
    requires
        0 <= m <= s.len(),
        forall|k: int| m <= k < s.len() ==> is_dec_digit(#[trigger] s[k]),
        dec_value(s.subrange(0, m)) >= 0,
    ensures
        dec_value(s) >= dec_value(s.subrange(0, m)),
    decreases s.len() - m,
{
    if m == s.len() {
        assert(s.subrange(0, m) =~= s);
    } else {
        assert(s.subrange(0, m + 1).drop_last() =~= s.subrange(0, m));
        assert(s.subrange(0, m + 1).last() == s[m]);
        let v = dec_value(s.subrange(0, m));
        assert(dec_value(s.subrange(0, m + 1)) == v * 10 + digit_val(s[m]));
        assert(v * 10 >= v);
        lemma_dec_value_extend(s, m + 1);
    }
}

/// Reading back the canonical numeral of `n` yields `n`.
pub proof fn lemma_dec_of_value(n: int)
    requires
        0 <= n,
    ensures
        dec_value(dec_of(n)) == n,
    decreases n,
{
    if n < 10 {
        assert(dec_of(n).drop_last() =~= Seq::<char>::empty());
        assert(dec_value(Seq::<char>::empty()) == 0);
        assert(dec_of(n).last() == dec_digit(n));
        assert(digit_val(dec_digit(n)) == n);
    } else {
        lemma_dec_of_value(n / 10);
        assert(dec_of(n).drop_last() =~= dec_of(n / 10));
        assert(dec_of(n).last() == dec_digit(n % 10));
        assert(digit_val(dec_digit(n % 10)) == n % 10);
        assert(n / 10 * 10 + n % 10 == n) by {
            vstd::arithmetic::div_mod::lemma_fundamental_div_mod(n, 10);
        }
    }
}

/// Distinct numbers have distinct canonical numerals.
pub proof fn lemma_dec_of_injective(p: int, q: int)
    requires
        0 <= p,
        0 <= q,
        p != q,
    ensures
        dec_of(p) != dec_of(q),
{
    lemma_dec_of_value(p);
    lemma_dec_of_value(q);
}

/// The one-character string for a digit value.
fn digit_str(d: u16) -> (r: &'static str)
    requires
        d < 10,
    ensures
        r@ == seq![dec_digit(d as int)],
{
    proof {
        reveal_strlit("0");
        reveal_strlit("1");
        reveal_strlit("2");
        reveal_strlit("3");
        reveal_strlit("4");
        reveal_strlit("5");
        reveal_strlit("6");
        reveal_strlit("7");
        reveal_strlit("8");
        reveal_strlit("9");
    }
    let r: &'static str = if d == 0 {
        "0"
    } else if d == 1 {
        "1"
    } else if d == 2 {
        "2"
    } else if d == 3 {
        "3"
    } else if d == 4 {
        "4"
    } else if d == 5 {
        "5"
    } else if d == 6 {
        "6"
    } else if d == 7 {
        "7"
    } else if d == 8 {
        "8"
    } else {
        "9"
    };
    assert(r@ =~= seq![dec_digit(d as int)]);
    r
}

/// The decimal numeral of a number as a fresh string, most significant
/// digit first, no sign and no leading zeroes.
pub fn u16_string(n: u16) -> (r: String)
    ensures
        r@ == dec_of(n as int),
    decreases n,
{
    if n < 10 {
        let r = String::from_str(digit_str(n));
        assert(r@ =~= dec_of(n as int));
        r
    } else {
        let mut r = u16_string(n / 10);
        r.append(digit_str(n % 10));
        assert(r@ =~= dec_of(n as int));
        r
    }
}

/// Reads a worker count the way the command line supplies one: an
/// optional leading plus sign, then decimal digits. Anything else, and
/// any value above `u16::MAX`, is rejected.
pub fn parse_u16(s: &str) -> (r: Option<u16>)
    ensures
        match r {
            Some(v) => is_u16_numeral(s@) && v as int == dec_value(numeral_body(s@)),
            None => !is_u16_numeral(s@),
        },
{
    let n = s.unicode_len();
    if n == 0 {
        return None;
    }
    let start: usize = if s.get_char(0) == '+' {
        1
    } else {
        0
    };
    let ghost b = numeral_body(s@);
    assert(b.len() == n - start);
    if n == start {
        return None;
    }
    let mut acc: u32 = 0;
    let mut i: usize = start;
    assert(b.subrange(0, 0) =~= Seq::<char>::empty());
    while i < n
        invariant
            start <= i <= n,
            n == s@.len(),
            start == 1 ==> s@.len() > 0 && s@[0] == '+',
            start == 0 || start == 1,
            b == numeral_body(s@),
            b.len() == n - start,
            forall|k: int| 0 <= k < b.len() ==> b[k] == s@[k + start],
            forall|k: int| 0 <= k < i - start ==> is_dec_digit(#[trigger] b[k]),
            acc as int == dec_value(b.subrange(0, i - start)),
            acc <= u16::MAX,
        decreases n - i,
    {
        let c = s.get_char(i);
        assert(c == b[i - start]);
        let u = c as u32;
        if u < '0' as u32 || u > '9' as u32 {
            assert(!is_dec_digit(b[i - start]));
            return None;
        }
        let d = u - '0' as u32;
        assert(d as int == digit_val(c));
        let next = acc * 10 + d;
        if next > u16::MAX as u32 {
            proof {
                assert(b.subrange(0, i - start + 1).drop_last() =~= b.subrange(0, i - start));
                assert(b.subrange(0, i - start + 1).last() == b[i - start]);
                assert(dec_value(b.subrange(0, i - start + 1)) == next);
                if is_u16_numeral(s@) {
                    lemma_dec_value_extend(b, i - start + 1);
                    assert(dec_value(b) >= next);
                    assert(false);
                }
            }
            return None;
        }
        acc = next;
        i = i + 1;
        proof {
            assert(b.subrange(0, i - start).drop_last() =~= b.subrange(0, i - start - 1));
            assert(b.subrange(0, i - start).last() == b[i - start - 1]);
        }
    }
    assert(b =~= b.subrange(0, n - start));
    Some(acc as u16)
}

} // verus!
