//! Strings: comparison, concatenation, rendering numbers and bitvectors,
//! parsing integers, and taking prefixes and suffixes.

use vstd::arithmetic::div_mod::lemma_div_decreases;
use vstd::arithmetic::power2::pow2;
use vstd::prelude::*;
use vstd::utf8::{encode_utf8, is_char_boundary};

use super::{fails, yields};
use crate::bits::{signed_of, B64};
use crate::smt::{Solver, Sym};
use crate::val::{ExecError, Val};

verus! {

/// The digit character for `d < 16`: `0`-`9`, then `a`-`f`.
pub open spec fn digit_char(d: nat) -> char {
    if d < 10 {
        (48 + d) as char
    } else {
        (87 + d) as char
    }
}

/// The digits of `n` in base `base >= 2`, most significant first, without
/// leading zeros (zero is the single digit `0`).
pub open spec fn radix_digits(n: nat, base: nat) -> Seq<char>
    decreases n,
{
    if base < 2 || n < base {
        seq![digit_char(n)]
    } else {
        proof {
            lemma_div_decreases(n as int, base as int);
        }
        radix_digits(n / base, base).push(digit_char(n % base))
    }
}

/// `ds` with zeros in front, to at least `width` characters.
pub open spec fn zero_padded(ds: Seq<char>, width: nat) -> Seq<char> {
    if ds.len() >= width {
        ds
    } else {
        Seq::new((width - ds.len()) as nat, |i: int| '0') + ds
    }
}

/// An integer in decimal, with a leading `-` where it is negative.
pub open spec fn decimal_of(i: int) -> Seq<char> {
    if i < 0 {
        seq!['-'] + radix_digits((-i) as nat, 10)
    } else {
        radix_digits(i as nat, 10)
    }
}

/// A symbol as text: its number in decimal.
pub open spec fn sym_text(v: Sym) -> Seq<char> {
    radix_digits(v.id as nat, 10)
}

/// A bitvector as text: `0x` and one hexadecimal digit per four bits where
/// the width is a multiple of four, `0b` and one binary digit per bit
/// otherwise.
pub open spec fn bits_text(b: B64) -> Seq<char> {
    if b.width() % 4 == 0 {
        seq!['0', 'x'] + zero_padded(radix_digits(b.value(), 16), b.width() / 4)
    } else {
        seq!['0', 'b'] + zero_padded(radix_digits(b.value(), 2), b.width())
    }
}

/// The one-character string of digit `d < 16`.
fn digit_str(d: u128) -> (r: &'static str)
    requires
        d < 16,
    ensures
        r@ == seq![digit_char(d as nat)],
{
    proof {
        reveal_strlit("0");
        reveal_strlit("1");
        reveal_strlit("2");
        reveal_strlit("3");
        reveal_strlit("4");
        reveal_strlit("5");
        reveal_strlit("6");
        reveal_strlit("7");
        reveal_strlit("8");
        reveal_strlit("9");
        reveal_strlit("a");
        reveal_strlit("b");
        reveal_strlit("c");
        reveal_strlit("d");
        reveal_strlit("e");
        reveal_strlit("f");
    }
    let r = if d == 0 {
        "0"
    } else if d == 1 {
        "1"
    } else if d == 2 {
        "2"
    } else if d == 3 {
        "3"
    } else if d == 4 {
        "4"
    } else if d == 5 {
        "5"
    } else if d == 6 {
        "6"
    } else if d == 7 {
        "7"
    } else if d == 8 {
        "8"
    } else if d == 9 {
        "9"
    } else if d == 10 {
        "a"
    } else if d == 11 {
        "b"
    } else if d == 12 {
        "c"
    } else if d == 13 {
        "d"
    } else if d == 14 {
        "e"
    } else {
        "f"
    };
    assert(r@ =~= seq![digit_char(d as nat)]);
    r
}

/// Appends the digits of `n` in base `base`.
fn write_digits(out: &mut String, n: u128, base: u128)
    requires
        2 <= base <= 16,
    ensures
        final(out)@ == old(out)@ + radix_digits(n as nat, base as nat),
    decreases n,
{
    if n < base {
        out.append(digit_str(n));
    } else {
        proof {
            lemma_div_decreases(n as int, base as int);
        }
        write_digits(out, n / base, base);
        out.append(digit_str(n % base));
        proof {
            assert(old(out)@ + radix_digits(n as nat, base as nat) =~= old(out)@ + radix_digits((n / base) as nat, base as nat) + seq![digit_char((n % base) as nat)]);
        }
    }
}

/// A number below `2^k` has at most `k` digits in any base, and always at
/// least one.
proof fn lemma_digits_len(n: nat, base: nat, k: nat)
    requires
        2 <= base,
        n < pow2(k),
    ensures
        1 <= radix_digits(n, base).len() <= (if k == 0 { 1 } else { k }),
    decreases n,
{
    if n >= base {
        lemma_div_decreases(n as int, base as int);
        if k == 0 {
            vstd::arithmetic::power2::lemma2_to64();
        } else {
            vstd::arithmetic::power2::lemma_pow2_unfold(k);
            assert(n / base <= n / 2) by {
                vstd::arithmetic::div_mod::lemma_div_is_ordered_by_denominator(n as int, 2, base as int);
            }
            if k == 1 {
                vstd::arithmetic::power2::lemma2_to64();
            }
            lemma_digits_len(n / base, base, (k - 1) as nat);
        }
    }
}

/// The number of digits of `n` in base `base`.
fn digit_count(n: u128, base: u128) -> (r: u32)
    requires
        2 <= base <= 16,
    ensures
        r == radix_digits(n as nat, base as nat).len(),
        r <= 128,
    decreases n,
{
    proof {
        crate::bits::lemma_pow2_127();
        lemma_digits_len(n as nat, base as nat, 128);
    }
    if n < base {
        1
    } else {
        proof {
            lemma_div_decreases(n as int, base as int);
        }
        digit_count(n / base, base) + 1
    }
}

/// Appends `k` zero characters.
fn write_zeros(out: &mut String, k: u32)
    ensures
        final(out)@ == old(out)@ + Seq::new(k as nat, |i: int| '0'),
{
    let mut i: u32 = 0;
    while i < k
        invariant
            i <= k,
            out@ == old(out)@ + Seq::new(i as nat, |j: int| '0'),
        decreases k - i,
    {
        out.append("0");
        i = i + 1;
        proof {
            reveal_strlit("0");
            assert(out@ =~= old(out)@ + Seq::new(i as nat, |j: int| '0'));
        }
    }
}

/// Appends the digits of `n` in base `base`, with zeros in front to at least
/// `width` characters.
fn write_padded(out: &mut String, n: u128, base: u128, width: u32)
    requires
        2 <= base <= 16,
    ensures
        final(out)@ == old(out)@ + zero_padded(radix_digits(n as nat, base as nat), width as nat),
{
    let count = digit_count(n, base);
    if count < width {
        write_zeros(out, width - count);
    }
    write_digits(out, n, base);
    proof {
        let ds = radix_digits(n as nat, base as nat);
        if count < width {
            assert(out@ =~= old(out)@ + zero_padded(ds, width as nat));
        } else {
            assert(out@ =~= old(out)@ + zero_padded(ds, width as nat));
        }
    }
}

/// Appends `i` in decimal.
fn write_decimal(out: &mut String, i: i128)
    ensures
        final(out)@ == old(out)@ + decimal_of(i as int),
{
    if i < 0 {
        proof {
            reveal_strlit("-");
        }
        out.append("-");
        let magnitude: u128 = ((-(i + 1)) as u128) + 1;
        write_digits(out, magnitude, 10);
        proof {
            assert(out@ =~= old(out)@ + decimal_of(i as int));
        }
    } else {
        write_digits(out, i as u128, 10);
    }
}

/// Appends the number of a symbol.
fn write_sym(out: &mut String, v: Sym)
    ensures
        final(out)@ == old(out)@ + sym_text(v),
{
    write_digits(out, v.id as u128, 10);
}

/// The operation returned the string `t` and left the solver as it was.
pub open spec fn yields_text(old: Solver, new: Solver, r: Result<Val, ExecError>, t: Seq<char>) -> bool {
    &&& r matches Ok(Val::String(s)) && s@ == t
    &&& super::unchanged(old, new)
}

/// Whether two strings are equal.
pub fn eq_string(lhs: Val, rhs: Val, solver: &mut Solver) -> (r: Result<Val, ExecError>)
    ensures
        match (lhs, rhs) {
            (Val::String(a), Val::String(b)) => yields(*old(solver), *final(solver), r, Val::Bool(a@ == b@)),
            _ => fails(*old(solver), *final(solver), r, ExecError::Type("eq_string")),
        },
{
    match (lhs, rhs) {
        (Val::String(a), Val::String(b)) => Ok(Val::Bool(a == b)),
        (_, _) => Err(ExecError::Type("eq_string")),
    }
}

/// Two strings one after the other.
pub fn concat_str(lhs: Val, rhs: Val, solver: &mut Solver) -> (r: Result<Val, ExecError>)
    ensures
        match (lhs, rhs) {
            (Val::String(a), Val::String(b)) => yields_text(*old(solver), *final(solver), r, a@ + b@),
            _ => fails(*old(solver), *final(solver), r, ExecError::Type("concat_str")),
        },
{
    match (lhs, rhs) {
        (Val::String(a), Val::String(b)) => Ok(Val::String(a.concat(b.as_str()))),
        (_, _) => Err(ExecError::Type("concat_str")),
    }
}

/// An integer in hexadecimal after `0x`, its 128-bit two's complement form
/// for a negative one; a symbol's number in brackets after `0x`.
pub fn hex_str(n: Val, solver: &mut Solver) -> (r: Result<Val, ExecError>)
    ensures
        match n {
            Val::I128(k) => yields_text(*old(solver), *final(solver), r, seq!['0', 'x'] + radix_digits(crate::bits::u128_pattern(k as int), 16)),
            Val::Symbolic(v) => yields_text(*old(solver), *final(solver), r, seq!['0', 'x', '['] + sym_text(v) + seq![']']),
            _ => fails(*old(solver), *final(solver), r, ExecError::Type("hex_str")),
        },
{
    match n {
        Val::I128(k) => {
            proof {
                reveal_strlit("0x");
            }
            let mut out = String::from_str("0x");
            write_digits(&mut out, crate::bits::pattern_of_i128(k), 16);
            proof {
                assert(out@ =~= seq!['0', 'x'] + radix_digits(crate::bits::u128_pattern(k as int), 16));
            }
            Ok(Val::String(out))
        },
        Val::Symbolic(v) => {
            proof {
                reveal_strlit("0x[");
                reveal_strlit("]");
            }
            let mut out = String::from_str("0x[");
            write_sym(&mut out, v);
            out.append("]");
            proof {
                assert(out@ =~= seq!['0', 'x', '['] + sym_text(v) + seq![']']);
            }
            Ok(Val::String(out))
        },
        _ => Err(ExecError::Type("hex_str")),
    }
}

/// An integer in decimal; a symbol's number in brackets.
pub fn dec_str(n: Val, solver: &mut Solver) -> (r: Result<Val, ExecError>)
    ensures
        match n {
            Val::I128(k) => yields_text(*old(solver), *final(solver), r, decimal_of(k as int)),
            Val::Symbolic(v) => yields_text(*old(solver), *final(solver), r, seq!['['] + sym_text(v) + seq![']']),
            _ => fails(*old(solver), *final(solver), r, ExecError::Type("dec_str")),
        },
{
    match n {
        Val::I128(k) => {
            let mut out = String::new();
            write_decimal(&mut out, k);
            proof {
                assert(out@ =~= decimal_of(k as int));
            }
            Ok(Val::String(out))
        },
        Val::Symbolic(v) => {
            proof {
                reveal_strlit("[");
                reveal_strlit("]");
            }
            let mut out = String::from_str("[");
            write_sym(&mut out, v);
            out.append("]");
            proof {
                assert(out@ =~= seq!['['] + sym_text(v) + seq![']']);
            }
            Ok(Val::String(out))
        },
        _ => Err(ExecError::Type("dec_str")),
    }
}

/// An unknown string: strings are never symbolic, so the poison value.
pub fn undefined_string(x: Val, solver: &mut Solver) -> (r: Result<Val, ExecError>)
    ensures
        yields(*old(solver), *final(solver), r, Val::Poison),
{
    Ok(Val::Poison)
}

/// The text after `v` of a symbol: its number.
fn sym_after_v(v: Sym) -> (r: String)
    ensures
        r@ == seq!['v'] + sym_text(v),
{
    proof {
        reveal_strlit("v");
    }
    let mut out = String::from_str("v");
    write_sym(&mut out, v);
    proof {
        assert(out@ =~= seq!['v'] + sym_text(v));
    }
    out
}

/// A bitvector as text; a symbol's number after `v`.
pub fn string_of_bits(bv: Val, solver: &mut Solver) -> (r: Result<Val, ExecError>)
    ensures
        match bv {
            Val::Bits(b) => yields_text(*old(solver), *final(solver), r, bits_text(b)),
            Val::Symbolic(v) => yields_text(*old(solver), *final(solver), r, seq!['v'] + sym_text(v)),
            _ => fails(*old(solver), *final(solver), r, ExecError::Type("string_of_bits")),
        },
{
    match bv {
        Val::Bits(b) => Ok(Val::String(bits_string(b))),
        Val::Symbolic(v) => Ok(Val::String(sym_after_v(v))),
        _ => Err(ExecError::Type("string_of_bits")),
    }
}

/// `bits_text` of a bitvector.
pub fn bits_string(b: B64) -> (r: String)
    ensures
        r@ == bits_text(b),
{
    let w = b.len();
    if w % 4 == 0 {
        proof {
            reveal_strlit("0x");
        }
        let mut out = String::from_str("0x");
        write_padded(&mut out, b.bits() as u128, 16, w / 4);
        proof {
            assert(out@ =~= bits_text(b));
        }
        out
    } else {
        proof {
            reveal_strlit("0b");
        }
        let mut out = String::from_str("0b");
        write_padded(&mut out, b.bits() as u128, 2, w);
        proof {
            assert(out@ =~= bits_text(b));
        }
        out
    }
}

/// The signed reading of a bitvector in decimal; a symbol's number after `v`.
pub fn decimal_string_of_bits(bv: Val, solver: &mut Solver) -> (r: Result<Val, ExecError>)
    ensures
        match bv {
            Val::Bits(b) => yields_text(*old(solver), *final(solver), r, decimal_of(signed_of(b.width(), b.value()))),
            Val::Symbolic(v) => yields_text(*old(solver), *final(solver), r, seq!['v'] + sym_text(v)),
            _ => fails(*old(solver), *final(solver), r, ExecError::Type("decimal_string_of_bits")),
        },
{
    match bv {
        Val::Bits(b) => {
            let mut out = String::new();
            write_decimal(&mut out, b.signed());
            proof {
                assert(out@ =~= decimal_of(signed_of(b.width(), b.value())));
            }
            Ok(Val::String(out))
        },
        Val::Symbolic(v) => Ok(Val::String(sym_after_v(v))),
        _ => Err(ExecError::Type("decimal_string_of_bits")),
    }
}

/// An integer in decimal; a symbol's number after `v`.
pub fn string_of_int(n: Val, solver: &mut Solver) -> (r: Result<Val, ExecError>)
    ensures
        match n {
            Val::I128(k) => yields_text(*old(solver), *final(solver), r, decimal_of(k as int)),
            Val::Symbolic(v) => yields_text(*old(solver), *final(solver), r, seq!['v'] + sym_text(v)),
            _ => fails(*old(solver), *final(solver), r, ExecError::Type("string_of_int")),
        },
{
    match n {
        Val::I128(k) => {
            let mut out = String::new();
            write_decimal(&mut out, k);
            proof {
                assert(out@ =~= decimal_of(k as int));
            }
            Ok(Val::String(out))
        },
        Val::Symbolic(v) => Ok(Val::String(sym_after_v(v))),
        _ => Err(ExecError::Type("string_of_int")),
    }
}

/// A decimal digit.
pub open spec fn is_digit(c: char) -> bool {
    48 <= (c as nat) <= 57
}

/// The value of a run of decimal digits.
pub open spec fn digits_value(ds: Seq<char>) -> nat
    decreases ds.len(),
{
    if ds.len() == 0 {
        0
    } else {
        digits_value(ds.drop_last()) * 10 + ((ds.last() as nat) - 48) as nat
    }
}

/// The text after an optional leading sign.
pub open spec fn unsigned_part(cs: Seq<char>) -> Seq<char> {
    if cs.len() > 0 && (cs[0] == '-' || cs[0] == '+') {
        cs.drop_first()
    } else {
        cs
    }
}

/// The integer a text denotes: an optional `+` or `-`, then one or more
/// decimal digits and nothing else; `None` where the text is not of that
/// form or its value does not fit in an `i128`.
pub open spec fn parse_i128(cs: Seq<char>) -> Option<i128> {
    let body = unsigned_part(cs);
    let magnitude = digits_value(body) as int;
    let v = if cs.len() > 0 && cs[0] == '-' {
        -magnitude
    } else {
        magnitude
    };
    if body.len() > 0 && (forall|i: int| 0 <= i < body.len() ==> #[trigger] is_digit(body[i])) && i128::MIN <= v <= i128::MAX {
        Some(v as i128)
    } else {
        None
    }
}

/// Reading more digits never makes the value smaller.
proof fn lemma_digits_value_grows(ds: Seq<char>, k: int)
    requires
        0 <= k <= ds.len(),
        forall|i: int| 0 <= i < ds.len() ==> #[trigger] is_digit(ds[i]),
    ensures
        digits_value(ds.take(k)) <= digits_value(ds),
    decreases ds.len() - k,
{
    if k < ds.len() {
        lemma_digits_value_grows(ds, k + 1);
        assert(ds.take(k + 1).drop_last() =~= ds.take(k));
    } else {
        assert(ds.take(k) =~= ds);
    }
}

/// A digit is an ASCII character.
proof fn lemma_digit_ascii(c: char)
    requires
        is_digit(c),
    ensures
        '\0' <= c <= '\u{7f}',
{
}

/// An ASCII character and its byte have the same code.
proof fn lemma_ascii_byte(c: char)
    requires
        (c as nat) < 128,
    ensures
        (c as u8) as nat == c as nat,
{
}

/// Reads the magnitude of the digits `b[start..]`: `None` where a byte is not
/// a digit or the value does not fit in a `u128`.
fn read_digits(b: &[u8], start: usize, Ghost(body): Ghost<Seq<char>>) -> (r: Option<u128>)
    requires
        start <= b@.len(),
        body.len() == b@.len() - start,
        forall|i: int| 0 <= i < body.len() ==> (body[i] as nat) == (b@[start + i] as nat),
    ensures
        match r {
            Some(v) => (forall|i: int| 0 <= i < body.len() ==> #[trigger] is_digit(body[i])) && v == digits_value(body),
            None => !(forall|i: int| 0 <= i < body.len() ==> #[trigger] is_digit(body[i])) || digits_value(body) > u128::MAX,
        },
{
    let mut acc: u128 = 0;
    let mut big = false;
    let mut i: usize = start;
    while i < b.len()
        invariant
            start <= i <= b@.len(),
            body.len() == b@.len() - start,
            forall|k: int| 0 <= k < body.len() ==> (body[k] as nat) == (b@[start + k] as nat),
            forall|k: int| 0 <= k < i - start ==> #[trigger] is_digit(body[k]),
            !big ==> acc == digits_value(body.take(i - start)),
            big ==> digits_value(body.take(i - start)) > u128::MAX,
        decreases b@.len() - i,
    {
        let c = b[i];
        let ghost k = i - start;
        proof {
            assert(body.take(k + 1).drop_last() =~= body.take(k));
            assert(body.take(k + 1).last() == body[k]);
            assert(start + k == i);
        }
        if c < 48 || c > 57 {
            proof {
                assert(!is_digit(body[k]));
            }
            return None;
        }
        proof {
            assert(is_digit(body[k]));
            assert((body[k] as nat) - 48 == (c as nat) - 48);
        }
        if !big {
            match acc.checked_mul(10) {
                Some(m) => match m.checked_add((c - 48) as u128) {
                    Some(v) => {
                        acc = v;
                    },
                    None => {
                        big = true;
                    },
                },
                None => {
                    big = true;
                },
            }
        }
        i = i + 1;
    }
    proof {
        assert(body.take(body.len() as int) =~= body);
    }
    if big {
        None
    } else {
        Some(acc)
    }
}

/// Reads an integer in decimal, with an optional sign; an overflow error
/// where the text is not such an integer or it does not fit.
pub fn string_to_i128(s: Val, solver: &mut Solver) -> (r: Result<Val, ExecError>)
    ensures
        match s {
            Val::String(t) => match parse_i128(t@) {
                Some(n) => yields(*old(solver), *final(solver), r, Val::I128(n)),
                None => fails(*old(solver), *final(solver), r, ExecError::Overflow),
            },
            _ => fails(*old(solver), *final(solver), r, ExecError::Type("%string->%int")),
        },
{
    match s {
        Val::String(t) => {
            let st = t.as_str();
            let ghost cs = t@;
            if !st.is_ascii() {
                proof {
                    let j = choose|j: int| 0 <= j < cs.len() && !('\0' <= #[trigger] cs[j] <= '\u{7f}');
                    let body = unsigned_part(cs);
                    if body.len() > 0 && (forall|i: int| 0 <= i < body.len() ==> #[trigger] is_digit(body[i])) {
                        if cs.len() > 0 && (cs[0] == '-' || cs[0] == '+') {
                            assert(j > 0);
                            assert(is_digit(body[j - 1]));
                            lemma_digit_ascii(body[j - 1]);
                        } else {
                            assert(is_digit(body[j]));
                            lemma_digit_ascii(body[j]);
                        }
                    }
                }
                return Err(ExecError::Overflow);
            }
            proof {
                broadcast use vstd::string::is_ascii_spec_bytes;
                broadcast use vstd::utf8::is_ascii_chars_nat_bound;
            }
            let b = st.as_bytes();
            let n = b.len();
            if n == 0 {
                return Err(ExecError::Overflow);
            }
            let first = b[0];
            let negative = first == 45;
            let start: usize = if first == 45 || first == 43 {
                1
            } else {
                0
            };
            let ghost body = unsigned_part(cs);
            proof {
                assert forall|i: int| 0 <= i < cs.len() implies (cs[i] as nat) == (b@[i] as nat) by {
                    lemma_ascii_byte(cs[i]);
                }
                assert(body.len() == n - start);
                assert forall|i: int| 0 <= i < body.len() implies (body[i] as nat) == (b@[start + i] as nat) by {
                    assert(body[i] == cs[start + i]);
                }
            }
            if start == n {
                return Err(ExecError::Overflow);
            }
            match read_digits(b, start, Ghost(body)) {
                None => Err(ExecError::Overflow),
                Some(m) => {
                    if negative {
                        if m <= 0x8000_0000_0000_0000_0000_0000_0000_0000 {
                            if m == 0x8000_0000_0000_0000_0000_0000_0000_0000 {
                                Ok(Val::I128(i128::MIN))
                            } else {
                                Ok(Val::I128(-(m as i128)))
                            }
                        } else {
                            Err(ExecError::Overflow)
                        }
                    } else {
                        if m <= 0x7fff_ffff_ffff_ffff_ffff_ffff_ffff_ffff {
                            Ok(Val::I128(m as i128))
                        } else {
                            Err(ExecError::Overflow)
                        }
                    }
                },
            }
        },
        _ => Err(ExecError::Type("%string->%int")),
    }
}

/// Whether `b` begins `a`.
fn bytes_prefix(a: &[u8], b: &[u8]) -> (r: bool)
    ensures
        r == b@.is_prefix_of(a@),
{
    if b.len() > a.len() {
        return false;
    }
    let mut i: usize = 0;
    while i < b.len()
        invariant
            i <= b@.len() <= a@.len(),
            forall|k: int| 0 <= k < i ==> b@[k] == a@[k],
        decreases b@.len() - i,
    {
        if a[i] != b[i] {
            proof {
                assert(a@.subrange(0, b@.len() as int)[i as int] != b@[i as int]);
            }
            return false;
        }
        i = i + 1;
    }
    proof {
        assert(b@ =~= a@.subrange(0, b@.len() as int));
    }
    true
}

/// Whether the UTF-8 encoding of `prefix` begins that of `s`.
pub fn string_startswith(s: Val, prefix: Val, solver: &mut Solver) -> (r: Result<Val, ExecError>)
    ensures
        match (s, prefix) {
            (Val::String(t), Val::String(p)) => yields(*old(solver), *final(solver), r, Val::Bool(encode_utf8(p@).is_prefix_of(encode_utf8(t@)))),
            _ => fails(*old(solver), *final(solver), r, ExecError::Type("string_startswith")),
        },
{
    match (s, prefix) {
        (Val::String(t), Val::String(p)) => Ok(Val::Bool(bytes_prefix(t.as_str().as_bytes(), p.as_str().as_bytes()))),
        _ => Err(ExecError::Type("string_startswith")),
    }
}

/// The length of a string in bytes of its UTF-8 encoding.
pub fn string_length(s: Val, solver: &mut Solver) -> (r: Result<Val, ExecError>)
    ensures
        match s {
            Val::String(t) => yields(*old(solver), *final(solver), r, Val::I128(encode_utf8(t@).len() as i128)),
            _ => fails(*old(solver), *final(solver), r, ExecError::Type("string_length")),
        },
{
    match s {
        Val::String(t) => Ok(Val::I128(t.as_str().as_bytes().len() as i128)),
        _ => Err(ExecError::Type("string_length")),
    }
}

/// A string without its first `n` bytes, where they end at a character
/// boundary; the empty string otherwise.
pub fn string_drop(s: Val, n: Val, solver: &mut Solver) -> (r: Result<Val, ExecError>)
    ensures
        match (s, n) {
            (Val::String(t), Val::I128(k)) => {
                &&& r matches Ok(Val::String(u)) && encode_utf8(u@) == (if is_char_boundary(encode_utf8(t@), (k as usize) as int) {
                    encode_utf8(t@).subrange((k as usize) as int, encode_utf8(t@).len() as int)
                } else {
                    Seq::empty()
                })
                &&& super::unchanged(*old(solver), *final(solver))
            },
            _ => fails(*old(solver), *final(solver), r, ExecError::Type("string_drop")),
        },
{
    match (s, n) {
        (Val::String(t), Val::I128(k)) => {
            let st = t.as_str();
            let i = k as usize;
            if st.is_char_boundary(i) {
                let (_, tail) = st.split_at(i);
                Ok(Val::String(tail.to_owned()))
            } else {
                Ok(Val::String(String::new()))
            }
        },
        _ => Err(ExecError::Type("string_drop")),
    }
}

/// The first `n` bytes of a string, where they end at a character boundary;
/// the whole string otherwise.
pub fn string_take(s: Val, n: Val, solver: &mut Solver) -> (r: Result<Val, ExecError>)
    ensures
        match (s, n) {
            (Val::String(t), Val::I128(k)) => {
                &&& r matches Ok(Val::String(u)) && encode_utf8(u@) == (if is_char_boundary(encode_utf8(t@), (k as usize) as int) {
                    encode_utf8(t@).subrange(0, (k as usize) as int)
                } else {
                    encode_utf8(t@)
                })
                &&& super::unchanged(*old(solver), *final(solver))
            },
            _ => fails(*old(solver), *final(solver), r, ExecError::Type("string_take")),
        },
{
    match (s, n) {
        (Val::String(t), Val::I128(k)) => {
            let i = k as usize;
            if t.as_str().is_char_boundary(i) {
                let (head, _) = t.as_str().split_at(i);
                Ok(Val::String(head.to_owned()))
            } else {
                Ok(Val::String(t))
            }
        },
        _ => Err(ExecError::Type("string_take")),
    }
}

} // verus!
