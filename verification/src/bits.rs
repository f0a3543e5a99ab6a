//! Concrete bitvectors of at most 64 bits.

use vstd::arithmetic::div_mod::*;
use vstd::arithmetic::power2::*;
use vstd::prelude::*;

verus! {

/// `2^n` as a `u128`, for `n < 128`.
pub fn p2(n: u32) -> (r: u128)
    requires
        n < 128,
    ensures
        r == pow2(n as nat),
{
    let mut r: u128 = 1;
    let mut i: u32 = 0;
    proof {
        lemma2_to64();
    }
    while i < n
        invariant
            i <= n < 128,
            r == pow2(i as nat),
        decreases n - i,
    {
        proof {
            lemma_pow2_unfold((i + 1) as nat);
            lemma_pow2_strictly_increases_or_eq((i + 1) as nat, 127);
            lemma_pow2_127();
        }
        r = r * 2;
        i = i + 1;
    }
    r
}

/// Clears every bit of `bits` from position `index` upwards.
pub fn bzhi_u64(bits: u64, index: u32) -> (r: u64)
    ensures
        index >= 64 ==> r == bits,
        index < 64 ==> r == bits as nat % pow2(index as nat),
{
    if index >= 64 {
        bits
    } else {
        let m = p2(index);
        proof {
            lemma_pow2_strictly_increases(index as nat, 64);
            lemma_pow2_pos(index as nat);
            lemma2_to64_rest();
        }
        bits % (m as u64)
    }
}

/// Signed reading of a `width`-bit two's complement value.
pub open spec fn signed_of(width: nat, value: nat) -> int {
    if width > 0 && value >= pow2((width - 1) as nat) {
        value - pow2(width)
    } else {
        value as int
    }
}

/// Logical shift right by `shift` places of a `width`-bit value.
pub open spec fn lshr_of(width: nat, value: nat, shift: nat) -> nat {
    if shift >= width {
        0
    } else {
        value / pow2(shift)
    }
}

/// Shift left by `shift` places of a `width`-bit value, dropping the bits
/// that leave the width.
pub open spec fn shl_of(width: nat, value: nat, shift: nat) -> nat {
    if shift >= width {
        0
    } else {
        (value * pow2(shift)) % pow2(width)
    }
}

/// Shift right by a signed amount: a negative amount shifts left.
pub open spec fn shiftr_of(width: nat, value: nat, shift: int) -> nat {
    if shift >= 0 {
        lshr_of(width, value, shift as nat)
    } else {
        shl_of(width, value, (-shift) as nat)
    }
}

/// Shift left by a signed amount: a negative amount shifts right.
pub open spec fn shiftl_of(width: nat, value: nat, shift: int) -> nat {
    if shift >= 0 {
        shl_of(width, value, shift as nat)
    } else {
        lshr_of(width, value, (-shift) as nat)
    }
}

/// `times` copies of a `width`-bit value side by side.
pub open spec fn replicate_of(width: nat, value: nat, times: nat) -> nat
    decreases times,
{
    if times == 0 {
        0
    } else {
        replicate_of(width, value, (times - 1) as nat) * pow2(width) + value
    }
}

/// A `width`-bit value with the bits from `n` upwards replaced by the
/// `update_width`-bit value `update`.
pub open spec fn set_slice_of(width: nat, value: nat, n: nat, update_width: nat, update: nat) -> nat {
    (value % pow2(n) + update * pow2(n) + (value / pow2(n + update_width)) * pow2(n + update_width))
        % pow2(width)
}

/// A concrete bitvector: `length` bits, of which the value is `bits`.
#[derive(Copy, Clone, Debug, PartialEq, Eq, Structural)]
pub struct B64 {
    length: u32,
    bits: u64,
}

impl B64 {
    /// Number of bits.
    pub closed spec fn width(self) -> nat {
        self.length as nat
    }

    /// Unsigned value of the bits.
    pub closed spec fn value(self) -> nat {
        self.bits as nat
    }

    /// A bitvector holds at most 64 bits and no bit beyond its width.
    pub open spec fn wf(self) -> bool {
        self.width() <= 64 && self.value() < pow2(self.width())
    }

    #[verifier::type_invariant]
    closed spec fn inv(self) -> bool {
        self.wf()
    }

    /// Two bitvectors with the same width and value are the same.
    pub proof fn lemma_ext(a: B64, b: B64)
        requires
            a.width() == b.width(),
            a.value() == b.value(),
        ensures
            a == b,
    {
    }

    /// The bitvector of `length` bits holding `bits` modulo `2^length`.
    pub fn new(bits: u64, length: u32) -> (r: B64)
        requires
            length <= 64,
        ensures
            r.width() == length,
            r.value() == bits as nat % pow2(length as nat),
    {
        let b = bzhi_u64(bits, length);
        proof {
            if length == 64 {
                lemma2_to64_rest();
                lemma_small_mod(bits as nat, pow2(64));
            }
            lemma_pow2_pos(length as nat);
        }
        B64 { length, bits: b }
    }

    /// The number of bits.
    pub fn len(&self) -> (r: u32)
        ensures
            r == self.width(),
            self.wf(),
    {
        proof {
            use_type_invariant(self);
        }
        self.length
    }

    /// The unsigned value of the bits.
    pub fn bits(&self) -> (r: u64)
        ensures
            r == self.value(),
            self.wf(),
    {
        proof {
            use_type_invariant(self);
        }
        self.bits
    }

    /// The number of bits, as an `i128`.
    pub fn len_i128(&self) -> (r: i128)
        ensures
            r == self.width(),
    {
        self.len() as i128
    }

    /// `length` zero bits.
    pub fn zeros(length: u32) -> (r: B64)
        requires
            length <= 64,
        ensures
            r.width() == length,
            r.value() == 0,
    {
        proof {
            lemma_pow2_pos(length as nat);
        }
        B64 { length, bits: 0 }
    }

    /// `length` one bits.
    pub fn ones(length: u32) -> (r: B64)
        requires
            length <= 64,
        ensures
            r.width() == length,
            r.value() == pow2(length as nat) - 1,
    {
        let m = p2(length);
        proof {
            lemma_pow2_pos(length as nat);
            lemma_pow2_strictly_increases_or_eq(length as nat, 64);
            lemma2_to64_rest();
        }
        B64 { length, bits: (m - 1) as u64 }
    }

    /// The single bit one.
    pub fn bit_one() -> (r: B64)
        ensures
            r.width() == 1,
            r.value() == 1,
    {
        proof {
            lemma2_to64();
        }
        B64 { length: 1, bits: 1 }
    }

    /// The single bit zero.
    pub fn bit_zero() -> (r: B64)
        ensures
            r.width() == 1,
            r.value() == 0,
    {
        proof {
            lemma2_to64();
        }
        B64 { length: 1, bits: 0 }
    }

    /// Whether every bit is zero.
    pub fn is_zero(&self) -> (r: bool)
        ensures
            r == (self.value() == 0),
    {
        self.bits == 0
    }

    /// The bits read as an unsigned number.
    pub fn unsigned(&self) -> (r: i128)
        ensures
            r == self.value(),
    {
        let b = self.bits();
        b as i128
    }

    /// The bits read as a two's complement number.
    pub fn signed(&self) -> (r: i128)
        ensures
            r == signed_of(self.width(), self.value()),
    {
        let len = self.len();
        let b = self.bits();
        if len == 0 {
            proof {
                lemma2_to64();
            }
            return 0;
        }
        let top = p2(len - 1);
        if (b as u128) >= top {
            let full = p2(len);
            proof {
                lemma_pow2_strictly_increases_or_eq(len as nat, 64);
                lemma2_to64_rest();
            }
            (b as i128) - (full as i128)
        } else {
            b as i128
        }
    }
}

/// `v >> s` for `s < 64`, as a division.
fn shr_u64(v: u64, s: u32) -> (r: u64)
    requires
        s < 64,
    ensures
        r == v as nat / pow2(s as nat),
{
    proof {
        vstd::bits::lemma_u64_shr_is_div(v, s as u64);
    }
    v >> s
}

/// Dividing a value below `2^(a+b)` by `2^a` leaves a value below `2^b`.
pub proof fn lemma_div_pow2_bound(v: nat, a: nat, b: nat)
    requires
        v < pow2(a + b),
    ensures
        v / pow2(a) < pow2(b),
{
    lemma_pow2_adds(a, b);
    lemma_pow2_pos(a);
    lemma_pow2_pos(b);
    let p = pow2(a) as int;
    let q = v as int / p;
    lemma_fundamental_div_mod(v as int, p);
    lemma_mod_pos_bound(v as int, p);
    if q >= pow2(b) {
        vstd::arithmetic::mul::lemma_mul_inequality(pow2(b) as int, q, p);
        vstd::arithmetic::mul::lemma_mul_is_commutative(p, q);
        vstd::arithmetic::mul::lemma_mul_is_commutative(p, pow2(b) as int);
        assert(false);
    }
}

/// A remainder modulo `2^n` is below `2^n`.
pub proof fn lemma_mod_pow2_bound(v: int, n: nat)
    ensures
        0 <= v % (pow2(n) as int) < pow2(n),
{
    lemma_pow2_pos(n);
    lemma_mod_bound(v, pow2(n) as int);
}

impl B64 {
    /// Bitwise complement.
    pub fn not(self) -> (r: B64)
        ensures
            r.width() == self.width(),
            r.value() == pow2(self.width()) - 1 - self.value(),
    {
        let len = self.len();
        let b = self.bits();
        let m = p2(len);
        proof {
            lemma_pow2_strictly_increases_or_eq(len as nat, 64);
            lemma2_to64_rest();
        }
        B64 { length: len, bits: (m - 1 - b as u128) as u64 }
    }

    /// Bitwise conjunction, at the width of `self`.
    pub fn and(self, rhs: B64) -> (r: B64)
        ensures
            r.width() == self.width(),
            r.value() == ((self.value() as u64) & (rhs.value() as u64)) as nat % pow2(self.width()),
    {
        let len = self.len();
        B64::new(self.bits() & rhs.bits(), len)
    }

    /// Bitwise disjunction, at the width of `self`.
    pub fn or(self, rhs: B64) -> (r: B64)
        ensures
            r.width() == self.width(),
            r.value() == ((self.value() as u64) | (rhs.value() as u64)) as nat % pow2(self.width()),
    {
        let len = self.len();
        B64::new(self.bits() | rhs.bits(), len)
    }

    /// Bitwise exclusive or, at the width of `self`.
    pub fn xor(self, rhs: B64) -> (r: B64)
        ensures
            r.width() == self.width(),
            r.value() == ((self.value() as u64) ^ (rhs.value() as u64)) as nat % pow2(self.width()),
    {
        let len = self.len();
        B64::new(self.bits() ^ rhs.bits(), len)
    }

    /// Addition modulo `2^width`, at the width of `self`.
    pub fn add(self, rhs: B64) -> (r: B64)
        ensures
            r.width() == self.width(),
            r.value() == (self.value() + rhs.value()) % pow2(self.width()),
    {
        let len = self.len();
        let m = p2(len);
        proof {
            lemma_pow2_strictly_increases_or_eq(len as nat, 64);
            lemma2_to64_rest();
            lemma_mod_pow2_bound((self.value() + rhs.value()) as int, len as nat);
            lemma_pow2_pos(len as nat);
        }
        let s = ((self.bits() as u128 + rhs.bits() as u128) % m) as u64;
        B64 { length: len, bits: s }
    }

    /// Subtraction modulo `2^width`, at the width of `self`.
    pub fn sub(self, rhs: B64) -> (r: B64)
        ensures
            r.width() == self.width(),
            r.value() == (self.value() - rhs.value()) % (pow2(self.width()) as int),
    {
        let len = self.len();
        let m = p2(len);
        let a = self.bits() as u128;
        let b = rhs.bits() as u128;
        proof {
            lemma_pow2_strictly_increases_or_eq(len as nat, 64);
            lemma2_to64_rest();
            lemma_pow2_pos(len as nat);
        }
        let bm = b % m;
        let s = (a + m - bm) % m;
        proof {
            let mi = m as int;
            let q = b as int / mi;
            lemma_fundamental_div_mod(b as int, mi);
            assert(a as int + mi - bm as int == mi * (q + 1) + (a as int - b as int)) by (nonlinear_arith)
                requires
                    b as int == mi * q + bm as int,
            ;
            lemma_mod_multiples_vanish(q + 1, a as int - b as int, mi);
            lemma_mod_pow2_bound(a as int + mi - bm as int, len as nat);
        }
        B64 { length: len, bits: s as u64 }
    }

    /// The same value at a width of `length` bits.
    pub fn zero_extend(self, length: u32) -> (r: B64)
        requires
            self.width() <= length <= 64,
        ensures
            r.width() == length,
            r.value() == self.value(),
    {
        let b = self.bits();
        proof {
            lemma_pow2_strictly_increases_or_eq(self.width(), length as nat);
        }
        B64 { length, bits: b }
    }

    /// The same two's complement number at a width of `length` bits.
    pub fn sign_extend(self, length: u32) -> (r: B64)
        requires
            self.width() <= length <= 64,
        ensures
            r.width() == length,
            r.value() == (if self.width() > 0 && self.value() >= pow2((self.width() - 1) as nat) {
                self.value() + pow2(length as nat) - pow2(self.width())
            } else {
                self.value() as int
            }),
    {
        let len = self.len();
        let b = self.bits();
        proof {
            lemma_pow2_strictly_increases_or_eq(len as nat, length as nat);
            lemma_pow2_strictly_increases_or_eq(length as nat, 64);
            lemma2_to64_rest();
        }
        if len > 0 && (b as u128) >= p2(len - 1) {
            let v = b as u128 + (p2(length) - p2(len));
            B64 { length, bits: v as u64 }
        } else {
            B64 { length, bits: b }
        }
    }

    /// The `length` bits from position `from` upwards, where they lie within
    /// the bitvector.
    pub fn slice(self, from: u32, length: u32) -> (r: Option<B64>)
        ensures
            r is Some <==> from + length <= self.width(),
            r matches Some(s) ==> s.width() == length && s.value() == (self.value() / pow2(
                from as nat,
            )) % pow2(length as nat),
    {
        let len = self.len();
        let b = self.bits();
        if (from as u64) + (length as u64) > (len as u64) {
            return None;
        }
        if length == 0 {
            proof {
                lemma2_to64();
            }
            return Some(B64::zeros(0));
        }
        let shifted = shr_u64(b, from);
        Some(B64::new(shifted, length))
    }

    /// The bits from `low` up to `high` inclusive, where they lie within the
    /// bitvector.
    pub fn extract(self, high: u32, low: u32) -> (r: Option<B64>)
        ensures
            r is Some <==> low <= high < self.width(),
            r matches Some(s) ==> s.width() == high - low + 1 && s.value() == (self.value()
                / pow2(low as nat)) % pow2((high - low + 1) as nat),
    {
        let len = self.len();
        let b = self.bits();
        if low <= high && high < len {
            let shifted = shr_u64(b, low);
            Some(B64::new(shifted, high - low + 1))
        } else {
            None
        }
    }

    /// The `length` most significant bits, where there are that many.
    pub fn truncate_lsb(self, length: i128) -> (r: Option<B64>)
        ensures
            r is Some <==> 0 <= length <= self.width(),
            r matches Some(s) ==> s.width() == length && s.value() == self.value() / pow2(
                (self.width() - length) as nat,
            ),
    {
        let len = self.len();
        let b = self.bits();
        if length < 0 || length > len as i128 {
            return None;
        }
        let keep = length as u32;
        if keep == 0 {
            proof {
                lemma_div_pow2_bound(b as nat, len as nat, 0);
                lemma2_to64();
            }
            return Some(B64::zeros(0));
        }
        let s = len - keep;
        let shifted = shr_u64(b, s);
        proof {
            lemma_div_pow2_bound(b as nat, s as nat, keep as nat);
        }
        Some(B64 { length: keep, bits: shifted })
    }
}

/// `(b * 2^s) mod 2^len` for `s < len <= 64`.
fn shl_within(b: u64, len: u32, s: u32) -> (r: u64)
    requires
        s < len <= 64,
        b < pow2(len as nat),
    ensures
        r == shl_of(len as nat, b as nat, s as nat),
        r < pow2(len as nat),
{
    let m = p2(len);
    let f = p2(s);
    proof {
        lemma_pow2_strictly_increases(s as nat, 64);
        lemma_pow2_strictly_increases_or_eq(len as nat, 64);
        lemma2_to64_rest();
        lemma_pow2_pos(len as nat);
        lemma_pow2_pos(s as nat);
        assert((b as int) * (f as int) < 0x1_0000_0000_0000_0000 * 0x1_0000_0000_0000_0000)
            by (nonlinear_arith)
            requires
                0 <= b < 0x1_0000_0000_0000_0000,
                0 < f < 0x1_0000_0000_0000_0000,
        ;
        lemma_mod_pow2_bound((b as int) * (f as int), len as nat);
    }
    ((b as u128 * f) % m) as u64
}

/// Repeating the empty bitvector any number of times gives the empty value.
pub proof fn lemma_replicate_empty(times: nat)
    ensures
        replicate_of(0, 0, times) == 0,
    decreases times,
{
    lemma2_to64();
    if times > 0 {
        lemma_replicate_empty((times - 1) as nat);
    }
}

impl B64 {
    /// Logical shift right; a negative amount shifts left.
    pub fn shiftr(self, shift: i128) -> (r: B64)
        ensures
            r.width() == self.width(),
            r.value() == shiftr_of(self.width(), self.value(), shift as int),
    {
        let len = self.len();
        let b = self.bits();
        proof {
            lemma_pow2_pos(len as nat);
        }
        if shift >= 0 {
            if shift >= len as i128 {
                B64 { length: len, bits: 0 }
            } else {
                let s = shift as u32;
                let v = shr_u64(b, s);
                proof {
                    lemma_div_pow2_bound(b as nat, s as nat, (len - s) as nat);
                    lemma_pow2_strictly_increases_or_eq((len - s) as nat, len as nat);
                }
                B64 { length: len, bits: v }
            }
        } else {
            if shift <= -(len as i128) {
                B64 { length: len, bits: 0 }
            } else {
                let s = (-shift) as u32;
                B64 { length: len, bits: shl_within(b, len, s) }
            }
        }
    }

    /// Shift left; a negative amount shifts right.
    pub fn shiftl(self, shift: i128) -> (r: B64)
        ensures
            r.width() == self.width(),
            r.value() == shiftl_of(self.width(), self.value(), shift as int),
    {
        let len = self.len();
        let b = self.bits();
        proof {
            lemma_pow2_pos(len as nat);
        }
        if shift >= 0 {
            if shift >= len as i128 {
                B64 { length: len, bits: 0 }
            } else {
                let s = shift as u32;
                B64 { length: len, bits: shl_within(b, len, s) }
            }
        } else {
            if shift <= -(len as i128) {
                B64 { length: len, bits: 0 }
            } else {
                let s = (-shift) as u32;
                let v = shr_u64(b, s);
                proof {
                    lemma_div_pow2_bound(b as nat, s as nat, (len - s) as nat);
                    lemma_pow2_strictly_increases_or_eq((len - s) as nat, len as nat);
                }
                B64 { length: len, bits: v }
            }
        }
    }

    /// `self` followed by `rhs` in the low bits, where both fit in 64 bits.
    pub fn append(self, rhs: B64) -> (r: Option<B64>)
        ensures
            r is Some <==> self.width() + rhs.width() <= 64,
            r matches Some(s) ==> s.width() == self.width() + rhs.width() && s.value()
                == self.value() * pow2(rhs.width()) + rhs.value(),
    {
        let l1 = self.len();
        let l2 = rhs.len();
        let b1 = self.bits();
        let b2 = rhs.bits();
        if (l1 as u64) + (l2 as u64) > 64 {
            return None;
        }
        let total = l1 + l2;
        let f = p2(l2);
        proof {
            let p1 = pow2(l1 as nat) as int;
            let q = pow2(l2 as nat) as int;
            lemma_pow2_adds(l1 as nat, l2 as nat);
            lemma_pow2_strictly_increases_or_eq(total as nat, 64);
            lemma2_to64_rest();
            assert((b1 as int) * q + (b2 as int) < p1 * q) by (nonlinear_arith)
                requires
                    0 <= b1 < p1,
                    0 <= b2 < q,
            ;
        }
        let v = (b1 as u128) * f + (b2 as u128);
        Some(B64 { length: total, bits: v as u64 })
    }

    /// `times` copies side by side; no copy for zero, the bitvector itself
    /// for one or a negative count; nothing where the copies exceed 64 bits.
    pub fn replicate(self, times: i128) -> (r: Option<B64>)
        ensures
            times == 0 ==> (r matches Some(s) && s.width() == 0 && s.value() == 0),
            times != 0 && times <= 1 ==> r == Some(self),
            times > 1 ==> (r is Some <==> self.width() * times <= 64),
            times > 1 ==> (r matches Some(s) ==> s.width() == self.width() * times && s.value()
                == replicate_of(self.width(), self.value(), times as nat)),
    {
        let len = self.len();
        let b = self.bits();
        if times == 0 {
            return Some(B64::zeros(0));
        }
        if times <= 1 {
            return Some(self);
        }
        if len == 0 {
            proof {
                lemma2_to64();
                lemma_replicate_empty(times as nat);
                assert(self.width() * times == 0) by (nonlinear_arith)
                    requires
                        self.width() == 0,
                ;
            }
            return Some(self);
        }
        if times > 64 {
            proof {
                assert(len * times > 64) by (nonlinear_arith)
                    requires
                        len >= 1,
                        times > 64,
                ;
            }
            return None;
        }
        proof {
            assert(len * times <= 64 * 64) by (nonlinear_arith)
                requires
                    len <= 64,
                    times <= 64,
                    times >= 0,
            ;
        }
        if (len as u64) * (times as u64) > 64 {
            return None;
        }
        let t = times as u32;
        let mut acc = self;
        let mut i: u32 = 1;
        proof {
            assert(replicate_of(len as nat, b as nat, 0) == 0);
            assert(replicate_of(len as nat, b as nat, 1) == 0 * pow2(len as nat) + b);
            assert(0 * pow2(len as nat) == 0) by (nonlinear_arith);
            assert(len * 1 == len);
        }
        while i < t
            invariant
                1 <= i <= t <= 64,
                len * t <= 64,
                len == self.width(),
                b == self.value(),
                acc.width() == len * i,
                acc.value() == replicate_of(len as nat, b as nat, i as nat),
            decreases t - i,
        {
            proof {
                assert(len * (i + 1) <= len * t) by (nonlinear_arith)
                    requires
                        i + 1 <= t,
                ;
                assert(len * (i + 1) == len * i + len) by (nonlinear_arith);
            }
            match acc.append(self) {
                Some(n) => {
                    acc = n;
                },
                None => {
                    return None;
                },
            }
            i = i + 1;
        }
        Some(acc)
    }

    /// The bits from position `n` upwards replaced by `update`, at the width
    /// of `self`.
    pub fn set_slice(self, n: u32, update: B64) -> (r: B64)
        ensures
            r.width() == self.width(),
            r.value() == set_slice_of(self.width(), self.value(), n as nat, update.width(), update.value()),
    {
        let len = self.len();
        let b = self.bits();
        let ulen = update.len();
        let u = update.bits();
        let ghost w = len as nat;
        let ghost e = (n + ulen) as nat;
        proof {
            lemma_pow2_pos(w);
            lemma_pow2_pos(n as nat);
            lemma_pow2_pos(e);
            lemma_pow2_strictly_increases_or_eq(w, 64);
            lemma2_to64_rest();
        }
        if n >= len {
            proof {
                lemma_set_slice_beyond(w, b as nat, n as nat, ulen as nat, u as nat);
            }
            return self;
        }
        let m = p2(len);
        let pn = p2(n);
        let lo = (b as u128) % pn;
        proof {
            lemma_pow2_strictly_increases(n as nat, 64);
            assert((u as int) * (pn as int) < 0x1_0000_0000_0000_0000 * 0x1_0000_0000_0000_0000)
                by (nonlinear_arith)
                requires
                    0 <= u < 0x1_0000_0000_0000_0000,
                    0 < pn < 0x1_0000_0000_0000_0000,
            ;
            lemma_mod_pow2_bound(b as int, n as nat);
        }
        let mid = ((u as u128) * pn) % m;
        let hi: u128 = if n + ulen < 64 {
            let pe = p2(n + ulen);
            proof {
                lemma_fundamental_div_mod(b as int, pe as int);
                lemma_mod_pow2_bound(b as int, e);
                vstd::arithmetic::mul::lemma_mul_is_commutative(pe as int, b as int / pe as int);
            }
            ((b as u128) / pe) * pe
        } else {
            proof {
                lemma_pow2_strictly_increases_or_eq(64, e);
                lemma_basic_div(b as int, pow2(e) as int);
                vstd::arithmetic::mul::lemma_mul_basics(pow2(e) as int);
                assert((b as nat / pow2(e)) * pow2(e) == 0);
            }
            0
        };
        proof {
            assert(hi as int == (b as nat / pow2(e)) * pow2(e));
            assert(lo as int == b as nat % pow2(n as nat));
            lemma_mod_pow2_bound((u as int) * (pn as int), w);
            let x = (lo + hi) as int;
            let y = (u as int) * (pn as int);
            lemma_add_mod_noop(x, y, m as int);
            lemma_add_mod_noop(x, y % (m as int), m as int);
            lemma_mod_twice(y, m as int);
            lemma_mod_pow2_bound(x + y % (m as int), w);
        }
        let r = (lo + mid + hi) % m;
        B64 { length: len, bits: r as u64 }
    }
}

/// An `i128` read as the unsigned 128-bit pattern of its two's complement.
pub open spec fn u128_pattern(x: int) -> nat {
    if x < 0 {
        (x + pow2(128)) as nat
    } else {
        x as nat
    }
}

/// A 128-bit pattern read as a two's complement `i128`.
pub open spec fn i128_of_pattern(x: nat) -> int {
    if x >= pow2(127) {
        x - pow2(128)
    } else {
        x as int
    }
}

/// Replacing bits at or beyond the width leaves the value as it was.
pub proof fn lemma_set_slice_beyond(w: nat, v: nat, n: nat, uw: nat, u: nat)
    requires
        v < pow2(w),
        w <= n,
    ensures
        set_slice_of(w, v, n, uw, u) == v,
{
    let e = n + uw;
    lemma_pow2_pos(w);
    lemma_pow2_pos(n);
    lemma_pow2_pos(e);
    let pn = pow2(n) as int;
    let pw = pow2(w) as int;
    let pe = pow2(e) as int;
    lemma_pow2_strictly_increases_or_eq(w, n);
    lemma_pow2_strictly_increases_or_eq(w, e);
    lemma_small_mod(v, pow2(n));
    lemma_basic_div(v as int, pe);
    lemma_pow2_adds(w, (n - w) as nat);
    let k = (u as int) * pow2((n - w) as nat);
    assert((u as int) * pn == pw * k) by (nonlinear_arith)
        requires
            pn == pw * pow2((n - w) as nat),
            k == (u as int) * pow2((n - w) as nat),
    ;
    lemma_mod_multiples_vanish(k, v as int, pw);
    lemma_small_mod(v, pow2(w));
}

/// Wrapping addition of `u128` values is addition modulo `2^128`.
proof fn lemma_wrapping_add_u128(a: u128, b: u128)
    ensures
        vstd::wrapping::u128_specs::wrapping_add(a, b) as int == (a + b) % (pow2(128) as int),
{
    lemma_pow2_127();
    let m = pow2(128) as int;
    if a + b >= m {
        lemma_mod_multiples_vanish(-1, a + b, m);
        lemma_small_mod((a + b - m) as nat, m as nat);
    } else {
        lemma_small_mod((a + b) as nat, m as nat);
    }
}

/// The bits of the 128-bit pattern `x` from position `n < 128` upwards
/// replaced by the `ulen`-bit value `u`.
#[verifier::rlimit(40)]
fn splice_u128(x: u128, n: u32, ulen: u32, u: u64) -> (r: u128)
    requires
        n < 128,
        ulen <= 64,
    ensures
        r == set_slice_of(128, x as nat, n as nat, ulen as nat, u as nat),
{
    let ghost e = (n + ulen) as nat;
    proof {
        lemma_pow2_pos(n as nat);
        lemma_pow2_pos(e);
        lemma_pow2_127();
    }
    let pn = p2(n);
    let lo = x % pn;
    let mid = (u as u128).wrapping_mul(pn);
    let hi: u128 = if n + ulen < 128 {
        let pe = p2(n + ulen);
        proof {
            lemma_fundamental_div_mod(x as int, pe as int);
            lemma_mod_pow2_bound(x as int, e);
            vstd::arithmetic::mul::lemma_mul_is_commutative(pe as int, x as int / pe as int);
        }
        let hv = (x / pe) * pe;
        proof {
            assert(hv as int == (x as nat / pow2(e)) * pow2(e));
        }
        hv
    } else {
        proof {
            lemma_pow2_strictly_increases_or_eq(128, e);
            lemma_basic_div(x as int, pow2(e) as int);
            vstd::arithmetic::mul::lemma_mul_basics(pow2(e) as int);
            assert((x as nat / pow2(e)) * pow2(e) == 0);
        }
        0
    };
    let s1 = lo.wrapping_add(mid);
    let s2 = s1.wrapping_add(hi);
    proof {
        let m = pow2(128) as int;
        let y = (u as int) * (pn as int);
        let a = lo as int;
        let h = hi as int;
        lemma_wrapping_add_u128(lo, mid);
        lemma_wrapping_add_u128(s1, hi);
        assert(mid as int == y % m);
        assert(s1 as int == (a + y % m) % m);
        assert(s2 as int == (s1 as int + h) % m);
        lemma_small_mod(hi as nat, m as nat);
        lemma_add_mod_noop(a + y % m, h, m);
        lemma_mod_twice(a + y % m, m);
        assert(s2 as int == (a + y % m + h) % m);
        lemma_add_mod_noop(a + h, y, m);
        lemma_add_mod_noop(a + h, y % m, m);
        lemma_mod_twice(y, m);
        assert((a + h + y % m) % m == (a + h + y) % m);
        assert(s2 as int == (a + y + h) % m);
        assert(a == x as nat % pow2(n as nat));
        assert(y == u as nat * pow2(n as nat));
        assert(h == (x as nat / pow2(e)) * pow2(e));
    }
    s2
}

/// The two's complement bit pattern of an `i128`.
pub fn pattern_of_i128(x: i128) -> (r: u128)
    ensures
        r == u128_pattern(x as int),
{
    proof {
        lemma_pow2_127();
    }
    if x < 0 {
        ((x + 0x7fff_ffff_ffff_ffff_ffff_ffff_ffff_ffff + 1) as u128) + 0x8000_0000_0000_0000_0000_0000_0000_0000
    } else {
        x as u128
    }
}

/// The `i128` whose two's complement bit pattern is `x`.
pub fn i128_of_u128(x: u128) -> (r: i128)
    ensures
        r == i128_of_pattern(x as nat),
{
    proof {
        lemma_pow2_127();
    }
    if x >= 0x8000_0000_0000_0000_0000_0000_0000_0000 {
        ((x - 0x8000_0000_0000_0000_0000_0000_0000_0000) as i128) + (-0x7fff_ffff_ffff_ffff_ffff_ffff_ffff_ffff - 1)
    } else {
        x as i128
    }
}

/// `number` with its bits from position `n` upwards replaced by `update`, in 128-bit
/// two's complement.
pub fn set_slice_int(number: i128, n: u32, update: B64) -> (r: i128)
    ensures
        r == i128_of_pattern(
            set_slice_of(128, u128_pattern(number as int), n as nat, update.width(), update.value()),
        ),
{
    let ulen = update.len();
    let u = update.bits();
    let x = pattern_of_i128(number);
    let res = if n >= 128 {
        proof {
            lemma_pow2_127();
            lemma_set_slice_beyond(128, x as nat, n as nat, ulen as nat, u as nat);
        }
        x
    } else {
        splice_u128(x, n, ulen, u)
    };
    i128_of_u128(res)
}

/// Values congruent modulo `2^m` are congruent modulo `2^w` for `w <= m`.
pub proof fn lemma_mod_pow2_congruent(a: int, b: int, m: nat, w: nat)
    requires
        a % (pow2(m) as int) == b % (pow2(m) as int),
        w <= m,
    ensures
        a % (pow2(w) as int) == b % (pow2(w) as int),
{
    lemma_pow2_adds(w, (m - w) as nat);
    lemma_pow2_pos(w);
    lemma_pow2_pos((m - w) as nat);
    lemma_mod_mod(a, pow2(w) as int, pow2((m - w) as nat) as int);
    lemma_mod_mod(b, pow2(w) as int, pow2((m - w) as nat) as int);
}

/// The two's complement pattern of `x` is congruent to `x` modulo `2^128`.
pub proof fn lemma_pattern_congruent(x: int)
    requires
        -pow2(127) <= x < pow2(127),
    ensures
        (u128_pattern(x) as int) % (pow2(128) as int) == x % (pow2(128) as int),
{
    lemma_pow2_127();
    if x < 0 {
        lemma_mod_multiples_vanish(1, x, pow2(128) as int);
    }
}

/// `2^127` as a literal.
pub proof fn lemma_pow2_127()
    ensures
        pow2(127) == 0x8000_0000_0000_0000_0000_0000_0000_0000,
        pow2(128) == 0x1_0000_0000_0000_0000_0000_0000_0000_0000,
{
    lemma2_to64();
    lemma2_to64_rest();
    lemma_pow2_adds(64, 63);
    lemma_pow2_adds(64, 64);
}

pub proof fn lemma_pow2_strictly_increases_or_eq(a: nat, b: nat)
    requires
        a <= b,
    ensures
        pow2(a) <= pow2(b),
{
    if a < b {
        lemma_pow2_strictly_increases(a, b);
    }
}

} // verus!
