//! Decimal integers as `i64::from_str` and `u16::from_str` read them: an
//! optional sign followed by at least one decimal digit, in range.
use vstd::prelude::*;

verus! {

/// The three-way comparison of two integers: -1, 0 or 1.
pub open spec fn compare_ints(a: int, b: int) -> int {
    if a < b {
        -1
    } else if a > b {
        1
    } else {
        0
    }
}

pub open spec fn is_digit(c: char) -> bool {
    '0' <= c && c <= '9'
}

pub open spec fn digit_value(c: char) -> int {
    (c as u32) - ('0' as u32)
}

/// A non-empty run of decimal digits.
pub open spec fn all_digits(d: Seq<char>) -> bool {
    d.len() > 0 && forall|i: int| 0 <= i < d.len() ==> is_digit(#[trigger] d[i])
}

/// The value of a run of decimal digits, most significant first.
pub open spec fn digits_value(d: Seq<char>) -> nat
    decreases d.len(),
{
    if d.len() == 0 {
        0
    } else {
        (digits_value(d.drop_last()) * 10 + digit_value(d.last())) as nat
    }
}

/// `i64::from_str`: an optional `+` or `-`, then decimal digits, and a value
/// that fits in `i64`.
pub open spec fn integer_value(w: Seq<char>) -> Option<i64> {
    let signed = w.len() > 0 && (w[0] == '+' || w[0] == '-');
    let negative = w.len() > 0 && w[0] == '-';
    let d = if signed {
        w.drop_first()
    } else {
        w
    };
    let v: int = if negative {
        -digits_value(d)
    } else {
        digits_value(d) as int
    };
    if all_digits(d) && i64::MIN <= v <= i64::MAX {
        Some(v as i64)
    } else {
        None
    }
}

/// `u16::from_str`: an optional `+`, then decimal digits, and a value that
/// fits in `u16`.
pub open spec fn port_value(w: Seq<char>) -> Option<u16> {
    let d = if w.len() > 0 && w[0] == '+' {
        w.drop_first()
    } else {
        w
    };
    if all_digits(d) && digits_value(d) <= u16::MAX {
        Some(digits_value(d) as u16)
    } else {
        None
    }
}

proof fn lemma_digits_value_step(d: Seq<char>, k: int)
    requires
        0 <= k < d.len(),
        is_digit(d[k]),
    ensures
        digits_value(d.take(k + 1)) == digits_value(d.take(k)) * 10 + digit_value(d[k]),
{
    assert(d.take(k + 1).drop_last() =~= d.take(k));
}

/// Appending digits never makes the value smaller.
proof fn lemma_digits_value_grows(d: Seq<char>, k: int)
    requires
        0 <= k <= d.len(),
        forall|i: int| 0 <= i < d.len() ==> is_digit(#[trigger] d[i]),
    ensures
        digits_value(d.take(k)) <= digits_value(d),
    decreases d.len() - k,
{
    if k < d.len() {
        lemma_digits_value_step(d, k);
        lemma_digits_value_grows(d, k + 1);
    } else {
        assert(d.take(k) =~= d);
    }
}

/// The value of the digits `d[from..]`, or `None` when it exceeds `u64::MAX`
/// or a character is not a digit.
fn digits_u64(d: &Vec<char>, from: usize) -> (r: Option<u64>)
    requires
        from <= d.len(),
    ensures
        r matches Some(v) ==> all_digits(d@.skip(from as int)) && v == digits_value(
            d@.skip(from as int),
        ),
        r is None ==> !all_digits(d@.skip(from as int)) || digits_value(d@.skip(from as int))
            > u64::MAX,
{
    let ghost s = d@.skip(from as int);
    if from == d.len() {
        return None;
    }
    let mut value: u64 = 0;
    let mut i: usize = from;
    assert(s.take(0) =~= Seq::<char>::empty());
    while i < d.len()
        invariant
            from <= i <= d.len(),
            s == d@.skip(from as int),
            forall|k: int| 0 <= k < i - from ==> is_digit(#[trigger] s[k]),
            value == digits_value(s.take(i - from)),
        decreases d.len() - i,
    {
        let c = d[i];
        if !('0' <= c && c <= '9') {
            assert(!is_digit(s[i - from]));
            return None;
        }
        let digit = ((c as u32) - ('0' as u32)) as u64;
        proof {
            lemma_digits_value_step(s, i - from);
        }
        let step = value.checked_mul(10);
        match step {
            Some(t) => {
                match t.checked_add(digit) {
                    Some(n) => {
                        value = n;
                    },
                    None => {
                        proof {
                            lemma_rest_digits_or_not(s, i - from + 1);
                        }
                        return None;
                    },
                }
            },
            None => {
                proof {
                    lemma_rest_digits_or_not(s, i - from + 1);
                }
                return None;
            },
        }
        i = i + 1;
    }
    assert(s.take(i - from) =~= s);
    Some(value)
}

/// Either some later character is not a digit, or the whole value is at
/// least the value of the first `k` digits.
proof fn lemma_rest_digits_or_not(s: Seq<char>, k: int)
    requires
        0 <= k <= s.len(),
    ensures
        !all_digits(s) || digits_value(s.take(k)) <= digits_value(s),
{
    if all_digits(s) {
        lemma_digits_value_grows(s, k);
    }
}

/// `i64::from_str` on characters.
pub fn parse_integer(w: &Vec<char>) -> (r: Option<i64>)
    ensures
        r == integer_value(w@),
{
    let signed = w.len() > 0 && (w[0] == '+' || w[0] == '-');
    let negative = w.len() > 0 && w[0] == '-';
    let from: usize = if signed {
        1
    } else {
        0
    };
    let ghost d = if signed {
        w@.drop_first()
    } else {
        w@
    };
    assert(w@.skip(from as int) =~= d);
    match digits_u64(w, from) {
        None => None,
        Some(m) => {
            if negative {
                if m <= 0x8000_0000_0000_0000u64 {
                    if m == 0x8000_0000_0000_0000u64 {
                        Some(i64::MIN)
                    } else {
                        Some(-(m as i64))
                    }
                } else {
                    None
                }
            } else {
                if m <= 0x7fff_ffff_ffff_ffffu64 {
                    Some(m as i64)
                } else {
                    None
                }
            }
        },
    }
}

/// `u16::from_str` on characters.
pub fn parse_port(w: &Vec<char>) -> (r: Option<u16>)
    ensures
        r == port_value(w@),
{
    let from: usize = if w.len() > 0 && w[0] == '+' {
        1
    } else {
        0
    };
    assert(w@.skip(0) =~= w@);
    assert(w@.skip(1) =~= w@.drop_first());
    match digits_u64(w, from) {
        None => None,
        Some(m) => {
            if m <= 0xffff {
                Some(m as u16)
            } else {
                None
            }
        },
    }
}

} // verus!
