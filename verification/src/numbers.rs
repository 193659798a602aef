//! Decimal number parsing as `str::parse` does it for `u32` and `i32`.

use vstd::prelude::*;
use crate::text::chars_of;

verus! {

/// An ASCII decimal digit (the only digits `str::parse` accepts).
pub open spec fn is_digit(c: char) -> bool {
    '0' <= c <= '9'
}

pub open spec fn all_digits(s: Seq<char>) -> bool {
    forall|i: int| 0 <= i < s.len() ==> is_digit(#[trigger] s[i])
}

/// The value of a run of ASCII digits, most significant first.
pub open spec fn digits_value(s: Seq<char>) -> nat
    decreases s.len(),
{
    if s.len() == 0 {
        0
    } else {
        digits_value(s.drop_last()) * 10 + ((s.last() as u32) - ('0' as u32)) as nat
    }
}

/// What `str::parse::<u32>` returns: an optional `+`, then one or more ASCII
/// digits whose value fits in a `u32`.
pub open spec fn parse_u32_spec(s: Seq<char>) -> Option<u32> {
    let d = if s.len() > 0 && s[0] == '+' {
        s.drop_first()
    } else {
        s
    };
    if d.len() > 0 && all_digits(d) && digits_value(d) <= u32::MAX {
        Some(digits_value(d) as u32)
    } else {
        None
    }
}

/// What `str::parse::<i32>` returns: an optional sign, then one or more ASCII
/// digits whose signed value fits in an `i32`.
pub open spec fn parse_i32_spec(s: Seq<char>) -> Option<i32> {
    let neg = s.len() > 0 && s[0] == '-';
    let d = if s.len() > 0 && (s[0] == '+' || s[0] == '-') {
        s.drop_first()
    } else {
        s
    };
    if d.len() > 0 && all_digits(d) {
        if neg && digits_value(d) <= 0x8000_0000 {
            Some((0 - digits_value(d)) as i32)
        } else if !neg && digits_value(d) <= 0x7fff_ffff {
            Some(digits_value(d) as i32)
        } else {
            None
        }
    } else {
        None
    }
}

/// `s` without its `,` and `.` characters (`str::replace([',', '.'], "")`).
pub open spec fn strip_separators(s: Seq<char>) -> Seq<char> {
    s.filter(|c: char| c != ',' && c != '.')
}

proof fn lemma_digits_value_monotone(s: Seq<char>, n: int)
    requires
        0 <= n <= s.len(),
        all_digits(s),
    ensures
        digits_value(s.take(n)) <= digits_value(s),
    decreases s.len(),
{
    if n < s.len() {
        assert(s.drop_last().take(n) =~= s.take(n));
        lemma_digits_value_monotone(s.drop_last(), n);
    } else {
        assert(s.take(n) =~= s);
    }
}

/// The value of `d[from..]` when every character is a digit and the value
/// fits in a `u32`; `None` otherwise.
fn digits_u32(d: &Vec<char>, from: usize) -> (res: Option<u32>)
    requires
        from <= d.len(),
    ensures
        ({
            let t = d@.skip(from as int);
            res == if all_digits(t) && digits_value(t) <= u32::MAX {
                Some(digits_value(t) as u32)
            } else {
                None::<u32>
            }
        }),
{
    let ghost t = d@.skip(from as int);
    let mut acc: u64 = 0;
    let mut i: usize = from;
    while i < d.len()
        invariant
            from <= i <= d.len(),
            t == d@.skip(from as int),
            all_digits(t.take(i - from)),
            acc == digits_value(t.take(i - from)),
            acc <= u32::MAX,
        decreases d.len() - i,
    {
        let c = d[i];
        proof {
            assert(t.take(i - from + 1).drop_last() =~= t.take(i - from));
            assert(t.take(i - from + 1).last() == c);
        }
        if c < '0' || c > '9' {
            proof {
                assert(!is_digit(t[i - from]));
            }
            return None;
        }
        let v = (c as u32 - '0' as u32) as u64;
        acc = acc * 10 + v;
        if acc > 0xffff_ffff {
            proof {
                assert(all_digits(t.take(i - from + 1)));
                if all_digits(t) {
                    lemma_digits_value_monotone(t, i - from + 1);
                }
            }
            return None;
        }
        proof {
            assert forall|k: int| 0 <= k < t.take(i - from + 1).len() implies is_digit(
                #[trigger] t.take(i - from + 1)[k],
            ) by {
                if k < i - from {
                    assert(t.take(i - from + 1)[k] == t.take(i - from)[k]);
                }
            }
        }
        i = i + 1;
    }
    proof {
        assert(t.take(i - from) =~= t);
    }
    Some(acc as u32)
}

/// `str::parse::<u32>`.
pub fn parse_u32(s: &str) -> (res: Option<u32>)
    ensures
        res == parse_u32_spec(s@),
{
    let d = chars_of(s);
    let from: usize = if d.len() > 0 && d[0] == '+' {
        1
    } else {
        0
    };
    proof {
        if from == 1 {
            assert(d@.skip(1) =~= s@.drop_first());
        } else {
            assert(d@.skip(0) =~= s@);
        }
    }
    if from == d.len() {
        return None;
    }
    digits_u32(&d, from)
}

/// `str::parse::<i32>`.
pub fn parse_i32(s: &str) -> (res: Option<i32>)
    ensures
        res == parse_i32_spec(s@),
{
    let d = chars_of(s);
    let neg = d.len() > 0 && d[0] == '-';
    let from: usize = if d.len() > 0 && (d[0] == '+' || d[0] == '-') {
        1
    } else {
        0
    };
    proof {
        if from == 1 {
            assert(d@.skip(1) =~= s@.drop_first());
        } else {
            assert(d@.skip(0) =~= s@);
        }
    }
    if from == d.len() {
        return None;
    }
    match digits_u32(&d, from) {
        None => {
            proof {
                let t = d@.skip(from as int);
                if all_digits(t) {
                    assert(digits_value(t) > u32::MAX);
                }
            }
            None
        },
        Some(v) => {
            if neg {
                if v <= 0x8000_0000 {
                    Some((0i64 - v as i64) as i32)
                } else {
                    None
                }
            } else {
                if v <= 0x7fff_ffff {
                    Some(v as i32)
                } else {
                    None
                }
            }
        },
    }
}

/// `s` with every `,` and `.` removed.
pub fn remove_separators(s: &str) -> (res: String)
    ensures
        res@ == strip_separators(s@),
{
    let d = chars_of(s);
    let mut out = String::new();
    let mut i: usize = 0;
    while i < d.len()
        invariant
            i <= d.len(),
            d@ == s@,
            out@ == strip_separators(d@.take(i as int)),
        decreases d.len() - i,
    {
        let c = d[i];
        proof {
            assert(d@.take(i + 1).drop_last() =~= d@.take(i as int));
            reveal_with_fuel(Seq::<_>::filter, 1);
        }
        if c != ',' && c != '.' {
            crate::text::push_char(&mut out, c);
        }
        i = i + 1;
    }
    proof {
        assert(d@.take(i as int) =~= s@);
    }
    out
}

/// `s.replace([',', '.'], "").parse::<u32>()`: digits written with
/// thousands separators.
pub fn parse_grouped_u32(s: &str) -> (res: Option<u32>)
    ensures
        res == parse_u32_spec(strip_separators(s@)),
{
    let stripped = remove_separators(s);
    parse_u32(stripped.as_str())
}

/// The decimal digits of `n`, most significant first, without leading zeros.
pub open spec fn decimal(n: nat) -> Seq<char>
    decreases n,
{
    if n < 10 {
        seq![(('0' as u32) + n) as char]
    } else {
        decimal(n / 10).push((('0' as u32) + (n % 10)) as char)
    }
}

/// `format!("{}", v)` for an integer.
pub open spec fn decimal_int(v: int) -> Seq<char> {
    if v < 0 {
        seq!['-'] + decimal((0 - v) as nat)
    } else {
        decimal(v as nat)
    }
}

fn digit_char(d: u64) -> (c: char)
    requires
        d < 10,
    ensures
        c == (('0' as u32) + d) as char,
{
    ((d as u8) + 48) as char
}

/// Appends the decimal digits of `n`.
pub fn push_decimal(out: &mut String, n: u64)
    ensures
        final(out)@ == old(out)@ + decimal(n as nat),
    decreases n,
{
    if n >= 10 {
        push_decimal(out, n / 10);
    }
    let c = digit_char(n % 10);
    crate::text::push_char(out, c);
    proof {
        if n >= 10 {
            assert(old(out)@ + decimal((n / 10) as nat) + seq![c] =~= old(out)@ + decimal(n as nat));
        } else {
            assert(old(out)@.push(c) =~= old(out)@ + decimal(n as nat));
        }
    }
}

/// Appends `format!("{}", v)`.
pub fn push_decimal_i64(out: &mut String, v: i64)
    ensures
        final(out)@ == old(out)@ + decimal_int(v as int),
{
    if v < 0 {
        crate::text::push_char(out, '-');
        let m: u64 = if v == i64::MIN {
            0x8000_0000_0000_0000u64
        } else {
            (0 - v) as u64
        };
        push_decimal(out, m);
        proof {
            assert(old(out)@.push('-') + decimal(m as nat) =~= old(out)@ + (seq!['-'] + decimal(
                m as nat,
            )));
        }
    } else {
        push_decimal(out, v as u64);
    }
}

} // verus!
