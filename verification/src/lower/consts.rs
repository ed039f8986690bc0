use vstd::prelude::*;

use crate::ast::IntSuffix;
use crate::ir::ConstValue;

verus! {

/// The value of a digit in a radix, if it is one.
pub open spec fn digit_value(c: char, radix: nat) -> Option<nat> {
    let v: int = if '0' <= c && c <= '9' {
        c as int - '0' as int
    } else if 'a' <= c && c <= 'z' {
        c as int - 'a' as int + 10
    } else if 'A' <= c && c <= 'Z' {
        c as int - 'A' as int + 10
    } else {
        radix as int
    };
    if 0 <= v < radix {
        Some(v as nat)
    } else {
        None
    }
}

/// The number a sequence of digits writes in a radix; none when a character
/// is not a digit.
pub open spec fn digits_value(ds: Seq<char>, radix: nat) -> Option<nat>
    decreases ds.len(),
{
    if ds.len() == 0 {
        Some(0)
    } else {
        match (digits_value(ds.drop_last(), radix), digit_value(ds.last(), radix)) {
            (Some(h), Some(d)) => Some(h * radix + d),
            _ => None,
        }
    }
}

/// The magnitude written after an optional sign, when there is at least one
/// digit.
pub open spec fn unsigned_part(ds: Seq<char>, radix: nat) -> Option<nat> {
    if ds.len() == 0 {
        None
    } else {
        digits_value(ds, radix)
    }
}

/// What parsing text as a `u64` in a radix gives: an optional `+`, then
/// digits, with a value that fits.
pub open spec fn parse_u64(ds: Seq<char>, radix: nat) -> Option<u64> {
    let body = if ds.len() > 0 && ds[0] == '+' {
        ds.drop_first()
    } else {
        ds
    };
    match unsigned_part(body, radix) {
        Some(v) => if v <= u64::MAX {
            Some(v as u64)
        } else {
            None
        },
        None => None,
    }
}

/// What parsing text as an `i64` in a radix gives: an optional sign, then
/// digits, with a value that fits.
pub open spec fn parse_i64(ds: Seq<char>, radix: nat) -> Option<i64> {
    if ds.len() > 0 && ds[0] == '-' {
        match unsigned_part(ds.drop_first(), radix) {
            Some(v) => if v <= 0x8000_0000_0000_0000 {
                Some((-(v as int)) as i64)
            } else {
                None
            },
            None => None,
        }
    } else {
        let body = if ds.len() > 0 && ds[0] == '+' {
            ds.drop_first()
        } else {
            ds
        };
        match unsigned_part(body, radix) {
            Some(v) => if v <= i64::MAX {
                Some(v as i64)
            } else {
                None
            },
            None => None,
        }
    }
}

/// The text of an integer literal without its `_` separators.
pub open spec fn without_separators(s: Seq<char>) -> Seq<char> {
    s.filter(|c: char| c != '_')
}

/// The radix a literal's prefix selects, and its digits.
pub open spec fn radix_and_digits(clean: Seq<char>) -> (nat, Seq<char>) {
    if clean.len() >= 2 && clean[0] == '0' && (clean[1] == 'x' || clean[1] == 'X') {
        (16, clean.skip(2))
    } else if clean.len() >= 2 && clean[0] == '0' && (clean[1] == 'o' || clean[1] == 'O') {
        (8, clean.skip(2))
    } else if clean.len() >= 2 && clean[0] == '0' && (clean[1] == 'b' || clean[1] == 'B') {
        (2, clean.skip(2))
    } else {
        (10, clean)
    }
}

/// The constant an integer literal denotes: an unsigned suffix gives a
/// `u64`, `i64` an `i64`, any other an `i32` (the `i64` value truncated);
/// text that does not parse gives zero.
pub open spec fn int_const(s: Seq<char>, suffix: Option<IntSuffix>) -> ConstValue {
    let (radix, digits) = radix_and_digits(without_separators(s));
    match suffix {
        Some(IntSuffix::U8) | Some(IntSuffix::U16) | Some(IntSuffix::U32) | Some(IntSuffix::U64) => {
            ConstValue::U64(
                match parse_u64(digits, radix) {
                    Some(v) => v,
                    None => 0,
                },
            )
        },
        Some(IntSuffix::I64) => ConstValue::I64(
            match parse_i64(digits, radix) {
                Some(v) => v,
                None => 0,
            },
        ),
        _ => ConstValue::I32(
            match parse_i64(digits, radix) {
                Some(v) => v as i32,
                None => 0,
            },
        ),
    }
}

/// The value of one digit.
/// A letter is the same digit in either case: the `k`-th letter of the
/// alphabet, `a` to `z` or `A` to `Z`, is the digit `10 + k` in any radix
/// above it and no digit otherwise; a decimal digit `0` to `9` is its own
/// value.
pub proof fn law_digit_letters_ignore_case(k: int, radix: nat)
    requires
        0 <= k < 26,
        2 <= radix <= 36,
    ensures
        digit_value((97 + k) as char, radix) == digit_value((65 + k) as char, radix),
        10 + k < radix ==> digit_value((65 + k) as char, radix) == Some((10 + k) as nat),
        10 + k >= radix ==> digit_value((65 + k) as char, radix) is None,
        k < 10 && k < radix ==> digit_value((48 + k) as char, radix) == Some(k as nat),
{
}

pub fn digit_of(c: char, radix: u32) -> (r: Option<u32>)
    requires
        2 <= radix <= 36,
    ensures
        match r {
            Some(v) => digit_value(c, radix as nat) == Some(v as nat),
            None => digit_value(c, radix as nat) is None,
        },
{
    let v: u32 = if '0' <= c && c <= '9' {
        (c as u32) - ('0' as u32)
    } else if 'a' <= c && c <= 'z' {
        (c as u32) - ('a' as u32) + 10
    } else if 'A' <= c && c <= 'Z' {
        (c as u32) - ('A' as u32) + 10
    } else {
        radix
    };
    if v < radix {
        Some(v)
    } else {
        None
    }
}

/// Read digits `ds[from..]` as an unsigned magnitude no larger than `limit`.
fn read_magnitude(ds: &Vec<char>, from: usize, radix: u32, limit: u64) -> (r: Option<u64>)
    requires
        2 <= radix <= 36,
        from <= ds@.len(),
    ensures
        match unsigned_part(ds@.skip(from as int), radix as nat) {
            Some(v) => if v <= limit {
                r == Some(v as u64)
            } else {
                r is None
            },
            None => r is None,
        },
{
    let ghost body = ds@.skip(from as int);
    if from == ds.len() {
        return None;
    }
    let mut acc: u64 = 0;
    let mut i: usize = from;
    let mut over = false;
    while i < ds.len()
        invariant
            from <= i <= ds@.len(),
            2 <= radix <= 36,
            body == ds@.skip(from as int),
            !over ==> digits_value(body.take(i - from), radix as nat) == Some(acc as nat),
            !over ==> acc <= limit,
            over ==> (digits_value(body.take(i - from), radix as nat) is None || digits_value(
                body.take(i - from),
                radix as nat,
            ).unwrap() > limit),
        decreases ds@.len() - i,
    {
        let ghost pre = body.take(i - from);
        assert(body.take(i - from + 1).drop_last() =~= pre);
        assert(body.take(i - from + 1).last() == ds@[i as int]);
        match digit_of(ds[i], radix) {
            None => {
                proof {
                    lemma_digits_none_extends(body, (i - from + 1) as nat, radix as nat);
                }
                return None;
            },
            Some(d) => {
                if !over {
                    assert((acc as int) * (radix as int) <= 0xffff_ffff_ffff_ffff * 36) by (nonlinear_arith)
                        requires
                            acc <= 0xffff_ffff_ffff_ffff,
                            radix <= 36,
                    ;
                    let next: u128 = (acc as u128) * (radix as u128) + (d as u128);
                    assert(digits_value(body.take(i - from + 1), radix as nat) == Some(next as nat));
                    if next <= limit as u128 {
                        acc = next as u64;
                    } else {
                        over = true;
                    }
                } else {
                    proof {
                        lemma_digits_grow(body, (i - from) as nat, radix as nat);
                    }
                }
            },
        }
        i = i + 1;
    }
    assert(body.take(i - from) =~= body);
    if over {
        None
    } else {
        Some(acc)
    }
}

/// Once a character is not a digit, no longer prefix has a value.
proof fn lemma_digits_none_extends(s: Seq<char>, n: nat, radix: nat)
    requires
        n <= s.len(),
        digits_value(s.take(n as int), radix) is None,
    ensures
        digits_value(s, radix) is None,
    decreases s.len() - n,
{
    if n < s.len() {
        assert(s.take(n as int + 1).drop_last() =~= s.take(n as int));
        lemma_digits_none_extends(s, n + 1, radix);
    } else {
        assert(s.take(n as int) =~= s);
    }
}

/// Appending a digit to a value above a limit keeps it above the limit.
proof fn lemma_digits_grow(s: Seq<char>, n: nat, radix: nat)
    requires
        n < s.len(),
        radix >= 2,
    ensures
        digits_value(s.take(n as int), radix) is None ==> digits_value(s.take(n as int + 1), radix) is None,
        digits_value(s.take(n as int + 1), radix) is Some ==> digits_value(s.take(n as int + 1), radix).unwrap()
            >= digits_value(s.take(n as int), radix).unwrap(),
{
    assert(s.take(n as int + 1).drop_last() =~= s.take(n as int));
    if digits_value(s.take(n as int + 1), radix) is Some {
        let h = digits_value(s.take(n as int), radix).unwrap();
        let d = digit_value(s[n as int], radix).unwrap();
        assert(h * radix + d >= h) by (nonlinear_arith)
            requires
                radix >= 2,
                h >= 0,
                d >= 0,
        ;
    }
}

/// The text of a string as characters.
fn chars_of(s: &String) -> (cs: Vec<char>)
    ensures
        cs@ == s@,
{
    let st = s.as_str();
    let n = st.unicode_len();
    let mut cs: Vec<char> = Vec::new();
    let mut i: usize = 0;
    while i < n
        invariant
            i <= n,
            n == s@.len(),
            st@ == s@,
            cs@ == s@.take(i as int),
        decreases n - i,
    {
        cs.push(st.get_char(i));
        assert(cs@ =~= s@.take(i + 1));
        i = i + 1;
    }
    assert(s@.take(n as int) =~= s@);
    cs
}

/// Parse an integer literal's text into its constant.
pub fn parse_int_const(s: &String, suffix: Option<IntSuffix>) -> (c: ConstValue)
    ensures
        c == int_const(s@, suffix),
{
    let raw = chars_of(s);
    let mut clean: Vec<char> = Vec::new();
    let mut i: usize = 0;
    while i < raw.len()
        invariant
            i <= raw@.len(),
            raw@ == s@,
            clean@ == without_separators(raw@.take(i as int)),
        decreases raw@.len() - i,
    {
        proof {
            assert(raw@.take(i + 1) =~= raw@.take(i as int).push(raw@[i as int]));
            assert(raw@.take(i + 1).drop_last() =~= raw@.take(i as int));
            reveal(Seq::filter);
        }
        if raw[i] != '_' {
            clean.push(raw[i]);
        }
        i = i + 1;
    }
    assert(raw@.take(i as int) =~= raw@);
    let n = clean.len();
    let (radix, start): (u32, usize) = if n >= 2 && clean[0] == '0' && (clean[1] == 'x' || clean[1]
        == 'X') {
        (16, 2)
    } else if n >= 2 && clean[0] == '0' && (clean[1] == 'o' || clean[1] == 'O') {
        (8, 2)
    } else if n >= 2 && clean[0] == '0' && (clean[1] == 'b' || clean[1] == 'B') {
        (2, 2)
    } else {
        (10, 0)
    };
    let ghost digits = radix_and_digits(clean@).1;
    assert(digits =~= clean@.skip(start as int));
    let unsigned = match suffix {
        Some(IntSuffix::U8) | Some(IntSuffix::U16) | Some(IntSuffix::U32) | Some(IntSuffix::U64) => true,
        _ => false,
    };
    if unsigned {
        let from = if start < n && clean[start] == '+' {
            start + 1
        } else {
            start
        };
        assert(clean@.skip(from as int) =~= if digits.len() > 0 && digits[0] == '+' {
            digits.drop_first()
        } else {
            digits
        });
        let v = match read_magnitude(&clean, from, radix, u64::MAX) {
            Some(v) => v,
            None => 0,
        };
        return ConstValue::U64(v);
    }
    let value: i64 = if start < n && clean[start] == '-' {
        assert(clean@.skip(start + 1) =~= digits.drop_first());
        match read_magnitude(&clean, start + 1, radix, 0x8000_0000_0000_0000) {
            Some(m) => {
                if m == 0x8000_0000_0000_0000 {
                    i64::MIN
                } else {
                    -(m as i64)
                }
            },
            None => 0,
        }
    } else {
        let from = if start < n && clean[start] == '+' {
            start + 1
        } else {
            start
        };
        assert(clean@.skip(from as int) =~= if digits.len() > 0 && digits[0] == '+' {
            digits.drop_first()
        } else {
            digits
        });
        match read_magnitude(&clean, from, radix, i64::MAX as u64) {
            Some(m) => m as i64,
            None => 0,
        }
    };
    match suffix {
        Some(IntSuffix::I64) => ConstValue::I64(value),
        _ => ConstValue::I32(value as i32),
    }
}

} // verus!
