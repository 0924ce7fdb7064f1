//! Numeric conversions: parsing integer literals, the branch-offset
//! arithmetic, and rendering integers as fixed-width binary strings.

use vstd::prelude::*;

use crate::errors::AsmError;
use crate::strutil::is_digit;

verus! {

/// The value of `c` as a decimal digit, or `-1`.
pub open spec fn dec_digit_val(c: char) -> int {
    if is_digit(c) {
        c as int - '0' as int
    } else {
        -1
    }
}

/// The value of `c` as a hexadecimal digit, or `-1`.
pub open spec fn hex_digit_val(c: char) -> int {
    if is_digit(c) {
        c as int - '0' as int
    } else if 'a' <= c && c <= 'f' {
        c as int - 'a' as int + 10
    } else if 'A' <= c && c <= 'F' {
        c as int - 'A' as int + 10
    } else {
        -1
    }
}

/// The value of `c` as a digit in the given radix (10 or 16), or `-1`.
pub open spec fn digit_val(c: char, radix: int) -> int {
    if radix == 16 {
        hex_digit_val(c)
    } else {
        dec_digit_val(c)
    }
}

/// The non-negative value of the digit string `s` in the given radix, or
/// `None` when `s` is empty or holds a character that is no digit.
pub open spec fn spec_digits_value(s: Seq<char>, radix: int) -> Option<int>
    decreases s.len(),
{
    if s.len() == 0 {
        None
    } else {
        let d = digit_val(s.last(), radix);
        if s.len() == 1 {
            if d >= 0 {
                Some(d)
            } else {
                None
            }
        } else {
            match spec_digits_value(s.drop_last(), radix) {
                Some(v) => if d >= 0 {
                    Some(v * radix + d)
                } else {
                    None
                },
                None => None,
            }
        }
    }
}

/// A parsed integer literal: `0x` followed by hexadecimal digits, or an
/// optionally negated run of decimal digits, with a magnitude of at most
/// `0x7FFFFFFF`. `None` on any other shape.
pub open spec fn spec_parse_int(s: Seq<char>) -> Option<int> {
    if s.len() >= 2 && s[0] == '0' && s[1] == 'x' {
        match spec_digits_value(s.subrange(2, s.len() as int), 16) {
            Some(v) => if v <= 0x7FFFFFFF {
                Some(v)
            } else {
                None
            },
            None => None,
        }
    } else if s.len() >= 1 && s[0] == '-' {
        match spec_digits_value(s.subrange(1, s.len() as int), 10) {
            Some(v) => if v <= 0x7FFFFFFF {
                Some(-v)
            } else {
                None
            },
            None => None,
        }
    } else {
        match spec_digits_value(s, 10) {
            Some(v) => if v <= 0x7FFFFFFF {
                Some(v)
            } else {
                None
            },
            None => None,
        }
    }
}

/// A digit string's value is non-negative.
proof fn lemma_digits_value_nonneg(s: Seq<char>, radix: int)
    requires
        radix == 10 || radix == 16,
        spec_digits_value(s, radix) is Some,
    ensures
        spec_digits_value(s, radix)->Some_0 >= 0,
    decreases s.len(),
{
    if s.len() > 1 {
        lemma_digits_value_nonneg(s.drop_last(), radix);
        let v = spec_digits_value(s.drop_last(), radix)->Some_0;
        let d = digit_val(s.last(), radix);
        assert(v * radix + d >= 0) by (nonlinear_arith)
            requires
                v >= 0,
                radix > 0,
                d >= 0,
        ;
    }
}

/// An invalid digit anywhere makes the whole string unparseable.
proof fn lemma_digits_value_invalid(s: Seq<char>, radix: int, k: int)
    requires
        0 <= k < s.len(),
        digit_val(s[k], radix) < 0,
    ensures
        spec_digits_value(s, radix) is None,
    decreases s.len(),
{
    if k < s.len() - 1 {
        lemma_digits_value_invalid(s.drop_last(), radix, k);
    }
}

/// Extending a digit string never shrinks its value.
proof fn lemma_digits_value_extend(s: Seq<char>, radix: int, i: int, j: int)
    requires
        radix == 10 || radix == 16,
        0 < i <= j <= s.len(),
        spec_digits_value(s.subrange(0, i), radix) is Some,
    ensures
        spec_digits_value(s.subrange(0, j), radix) is None || spec_digits_value(
            s.subrange(0, j),
            radix,
        )->Some_0 >= spec_digits_value(s.subrange(0, i), radix)->Some_0,
    decreases j - i,
{
    lemma_digits_value_nonneg(s.subrange(0, i), radix);
    if i < j {
        let t = s.subrange(0, i + 1);
        assert(t.drop_last() =~= s.subrange(0, i));
        let v = spec_digits_value(s.subrange(0, i), radix)->Some_0;
        let d = digit_val(s[i], radix);
        if d >= 0 {
            assert(v * radix + d >= v) by (nonlinear_arith)
                requires
                    v >= 0,
                    radix > 1,
                    d >= 0,
            ;
            lemma_digits_value_extend(s, radix, i + 1, j);
        } else {
            lemma_digits_value_invalid(s.subrange(0, j), radix, i);
        }
    }
}

/// The value of `c` as a digit, mirroring [`digit_val`].
fn char_digit_val(c: char, radix: u32) -> (r: Option<u32>)
    requires
        radix == 10 || radix == 16,
    ensures
        match r {
            Some(d) => digit_val(c, radix as int) == d as int && d < radix,
            None => digit_val(c, radix as int) < 0,
        },
{
    if '0' <= c && c <= '9' {
        Some(c as u32 - '0' as u32)
    } else if radix == 16 && 'a' <= c && c <= 'f' {
        Some(c as u32 - 'a' as u32 + 10)
    } else if radix == 16 && 'A' <= c && c <= 'F' {
        Some(c as u32 - 'A' as u32 + 10)
    } else {
        None
    }
}

/// Parses the digits of `s` from index `from` to the end, in the given
/// radix, yielding a value of at most `0x7FFFFFFF`.
fn parse_digits(s: &str, from: usize, radix: u32) -> (r: Option<u32>)
    requires
        radix == 10 || radix == 16,
        from <= s@.len(),
    ensures
        ({
            let spec = spec_digits_value(s@.subrange(from as int, s@.len() as int), radix as int);
            match r {
                Some(v) => spec == Some(v as int) && v <= 0x7FFFFFFF,
                None => spec is None || spec->Some_0 > 0x7FFFFFFF,
            }
        }),
{
    let ghost whole = s@.subrange(from as int, s@.len() as int);
    let n = s.unicode_len();
    if from == n {
        return None;
    }
    let mut acc: u32 = 0;
    let mut i: usize = from;
    while i < n
        invariant
            radix == 10 || radix == 16,
            from <= i <= n,
            n == s@.len(),
            from < n,
            whole == s@.subrange(from as int, n as int),
            acc <= 0x7FFFFFFF,
            i == from ==> acc == 0,
            i > from ==> spec_digits_value(whole.subrange(0, i - from), radix as int) == Some(
                acc as int,
            ),
        decreases n - i,
    {
        let c = s.get_char(i);
        assert(whole[i - from] == s@[i as int]);
        match char_digit_val(c, radix) {
            None => {
                proof {
                    lemma_digits_value_invalid(whole, radix as int, i - from);
                }
                return None;
            },
            Some(d) => {
                proof {
                    assert(acc as int * radix as int + d as int <= 0x800000000) by (nonlinear_arith)
                        requires
                            acc <= 0x7FFFFFFF,
                            radix <= 16,
                            0 <= d < radix,
                    ;
                }
                let wide: u64 = acc as u64 * radix as u64 + d as u64;
                proof {
                    let prefix = whole.subrange(0, i - from + 1);
                    assert(prefix.drop_last() =~= whole.subrange(0, i - from));
                    assert(prefix.last() == whole[i - from]);
                    assert(spec_digits_value(prefix, radix as int) == Some(
                        acc as int * radix as int + d as int,
                    ));
                }
                if wide > 0x7FFFFFFF {
                    proof {
                        lemma_digits_value_extend(
                            whole,
                            radix as int,
                            i - from + 1,
                            whole.len() as int,
                        );
                        assert(whole.subrange(0, whole.len() as int) =~= whole);
                    }
                    return None;
                }
                acc = wide as u32;
            },
        }
        i = i + 1;
    }
    proof {
        assert(whole.subrange(0, n - from) =~= whole);
    }
    Some(acc)
}

/// Parses an integer literal: `0x`-prefixed hexadecimal, or decimal with an
/// optional leading minus sign. Exactly the literals of [`spec_parse_int`]
/// succeed.
pub fn convert_string_to_int(code: &str) -> (r: Result<i32, AsmError>)
    ensures
        match r {
            Ok(v) => spec_parse_int(code@) == Some(v as int),
            Err(e) => spec_parse_int(code@) is None && e == AsmError::InvalidNumber,
        },
{
    let n = code.unicode_len();
    if n >= 2 && code.get_char(0) == '0' && code.get_char(1) == 'x' {
        match parse_digits(code, 2, 16) {
            Some(v) => Ok(v as i32),
            None => Err(AsmError::InvalidNumber),
        }
    } else if n >= 1 && code.get_char(0) == '-' {
        match parse_digits(code, 1, 10) {
            Some(v) => Ok(-(v as i32)),
            None => Err(AsmError::InvalidNumber),
        }
    } else {
        match parse_digits(code, 0, 10) {
            Some(v) => {
                proof {
                    assert(code@.subrange(0, n as int) =~= code@);
                }
                Ok(v as i32)
            },
            None => {
                proof {
                    assert(code@.subrange(0, n as int) =~= code@);
                }
                Err(AsmError::InvalidNumber)
            },
        }
    }
}

/// Rust's truncating division of `d` by 4.
pub open spec fn trunc_div4(d: int) -> int {
    if d >= 0 {
        d / 4
    } else {
        -((-d) / 4)
    }
}

/// The PC-relative word offset a branch encodes: the distance from the
/// instruction at `current` to the target `target`, in words, biased by one
/// for the instruction that follows the branch.
pub open spec fn spec_address_difference(current: int, target: int) -> int {
    trunc_div4(target - current) - 1
}

/// Computes the branch immediate `(target - current) / 4 - 1`.
pub fn get_address_difference(current_address: i32, target_address: i32) -> (r: i32)
    ensures
        r as int == spec_address_difference(current_address as int, target_address as int),
{
    let wide: i64 = target_address as i64 - current_address as i64;
    if wide >= 0 {
        let q: i64 = (wide as u64 / 4) as i64;
        (q - 1) as i32
    } else {
        let q: i64 = ((-wide) as u64 / 4) as i64;
        (-q - 1) as i32
    }
}

/// The views of the values in `v`.
pub open spec fn views_of_values(v: Seq<i32>) -> Seq<int> {
    v.map_values(|x: i32| x as int)
}

/// Arithmetic right shift of `value` by two bit positions: floor division
/// by four.
pub fn shift_right_two(value: i32) -> (r: i32)
    ensures
        r as int == value as int / 4,
{
    if value >= 0 {
        (value as u32 / 4) as i32
    } else {
        let m: u64 = (-(value as i64)) as u64;
        let q: u64 = (m + 3) / 4;
        proof {
            assert(value as int / 4 == -((m + 3) as int / 4)) by (nonlinear_arith)
                requires
                    m == -(value as int),
                    value < 0,
            ;
        }
        -(q as i32)
    }
}

/// The character of bit `k` of `u` (`k` counted from the least significant
/// bit).
pub open spec fn bin_char(u: u32, k: u32) -> char {
    if (u >> k) & 1 == 1 {
        '1'
    } else {
        '0'
    }
}

/// The low `n` bits of `u` as characters, most significant first.
pub open spec fn spec_bits(u: u32, n: int) -> Seq<char> {
    Seq::new(n as nat, |i: int| bin_char(u, (n - 1 - i) as u32))
}

/// The low `n` bits of the 32-bit two's-complement pattern of `v`, most
/// significant first.
pub open spec fn spec_int_to_binary(v: i32, n: int) -> Seq<char> {
    spec_bits(v as u32, n)
}

/// Renders `number` as its 32-bit two's-complement bit pattern and keeps the
/// low-order `bit` characters.
pub fn convert_int_to_binary(number: i32, bit: i32) -> (r: String)
    requires
        0 <= bit <= 32,
    ensures
        r@ == spec_int_to_binary(number, bit as int),
        r@.len() == bit as int,
{
    let u: u32 = #[verifier::truncate] (number as u32);
    let nbits: usize = bit as usize;
    let mut out = String::new();
    let mut i: usize = 0;
    while i < nbits
        invariant
            nbits <= 32,
            0 <= i <= nbits,
            u == number as u32,
            out@ =~= spec_bits(u, nbits as int).subrange(0, i as int),
        decreases nbits - i,
    {
        proof {
            reveal_strlit("0");
            reveal_strlit("1");
        }
        let k: u32 = (nbits - 1 - i) as u32;
        if (u >> k) & 1 == 1 {
            out.append("1");
        } else {
            out.append("0");
        }
        proof {
            assert(out@ =~= spec_bits(u, nbits as int).subrange(0, i + 1));
        }
        i = i + 1;
    }
    proof {
        assert(spec_bits(u, nbits as int).subrange(0, nbits as int) =~= spec_bits(
            u,
            nbits as int,
        ));
    }
    out
}

} // verus!
