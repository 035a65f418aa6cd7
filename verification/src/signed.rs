//! The canonical signed codec.
//!
//! Values in `-2^123 .. 2^123` are encoded as one header byte plus up to
//! fifteen payload bytes.  The top five bits of the header byte hold a
//! signed payload count: codes `16..=31` stand for non-negative values with
//! `code - 16` payload bytes, codes `0..=15` for negative values with
//! `15 - code` payload bytes, so that the code itself orders across the
//! sign boundary.  The low three bits and the payload bytes hold the
//! magnitude in two's-complement form, big-endian.

use vstd::prelude::*;
use vstd::arithmetic::power2::{pow2, lemma_pow2_adds, lemma2_to64};
use vstd::arithmetic::div_mod::{
    lemma_basic_div, lemma_div_pos_is_pos, lemma_fundamental_div_mod,
    lemma_hoist_over_denominator, lemma_mod_add_multiples_vanish, lemma_mod_bound,
    lemma_mod_multiples_vanish, lemma_multiply_divide_lt, lemma_small_mod,
};

use crate::bytes::{
    be_bytes, be_val, exec_pow256, lemma_be_bytes_first, lemma_be_bytes_len, lemma_be_bytes_order,
    lemma_be_bytes_split, lemma_be_val_bound, lemma_be_val_of_be_bytes, lemma_lex_less_asym,
    lemma_lex_less_irrefl, lemma_pow256_fits_u128, lemma_pow256_increases, lemma_pow256_pos,
    lemma_pow256_unfold, lemma_pow256_zero, lex_less, pow256, read_be, write_be,
};
use crate::Error;

verus! {

/// Number of payload bytes that follow the header byte when `v` is
/// encoded: the least `e` with `-8 * 256^e <= v < 8 * 256^e`, so that
/// after `e` whole bytes the remaining magnitude and its sign fit the
/// three low bits of the header.
pub open spec fn signed_extra(v: int) -> nat
    decreases (if v >= 0 { v } else { -1 - v }),
{
    if -8 <= v < 8 {
        0
    } else {
        1 + signed_extra(v / 256)
    }
}

/// The five-bit header code: payload count, folded with the sign so that
/// the code alone orders values of unlike magnitude classes.
pub open spec fn signed_code(v: int) -> int {
    if v >= 0 {
        16 + signed_extra(v) as int
    } else {
        15 - signed_extra(v) as int
    }
}

/// The encoded form of `v`: `e + 1` bytes holding
/// `code * 8 * 256^e + (v mod 8 * 256^e)` big-endian, which places the
/// code in the top five bits of the first byte and the low
/// two's-complement bits of `v` in the rest.
pub open spec fn signed_encoding(v: int) -> Seq<u8> {
    let e = signed_extra(v);
    let m = 8 * (pow256(e) as int);
    be_bytes((signed_code(v) * m + (v % m)) as nat, e + 1)
}

/// The five-bit code held by the header byte of `s`.
pub open spec fn signed_header_code(s: Seq<u8>) -> nat {
    (s[0] as nat) / 8
}

/// Whether the header byte of `s` announces a negative value.
pub open spec fn signed_header_neg(s: Seq<u8>) -> bool {
    signed_header_code(s) < 16
}

/// The payload count announced by the header byte of `s`.
pub open spec fn signed_header_extra(s: Seq<u8>) -> nat {
    if signed_header_neg(s) {
        (15 - signed_header_code(s)) as nat
    } else {
        (signed_header_code(s) - 16) as nat
    }
}

/// The value a byte string decodes to, when it is long enough: the
/// transmitted magnitude, sign-extended when the header says negative.
pub open spec fn signed_decoded(s: Seq<u8>) -> int {
    let e = signed_header_extra(s);
    let mag = ((s[0] as nat) % 8) * pow256(e) + be_val(s.subrange(1, e + 1 as int));
    if signed_header_neg(s) {
        mag - 8 * (pow256(e) as int)
    } else {
        mag as int
    }
}

/// `2^123` bounds the representable range: eight choices of leading bits
/// times `256^15` payload choices at the widest, on either side of zero.
pub proof fn lemma_pow2_123()
    ensures
        pow2(123) == 8 * pow256(15),
{
    lemma_pow2_adds(3, 120);
    lemma2_to64();
}

/// A value within `-8 * 256^k .. 8 * 256^k` needs at most `k` payload
/// bytes.
pub proof fn lemma_signed_extra_le(v: int, k: nat)
    requires
        -8 * pow256(k) <= v < 8 * pow256(k),
    ensures
        signed_extra(v) <= k,
    decreases k,
{
    lemma_pow256_zero();
    if v < -8 || v >= 8 {
        lemma_pow256_unfold(k);
        lemma_pow256_pos((k - 1) as nat);
        lemma_fundamental_div_mod(v, 256);
        lemma_mod_bound(v, 256);
        lemma_signed_extra_le(v / 256, (k - 1) as nat);
    }
}

/// The payload count is large enough: `-8 * 256^e <= v < 8 * 256^e`.
pub proof fn lemma_signed_extra_fits(v: int)
    ensures
        -8 * pow256(signed_extra(v)) <= v < 8 * pow256(signed_extra(v)),
    decreases (if v >= 0 { v } else { -1 - v }),
{
    lemma_pow256_zero();
    if v < -8 || v >= 8 {
        lemma_fundamental_div_mod(v, 256);
        lemma_mod_bound(v, 256);
        lemma_signed_extra_fits(v / 256);
        let e1 = signed_extra(v / 256);
        lemma_pow256_unfold((e1 + 1) as nat);
    }
}

/// Within the class picked by the payload count, the transmitted bits are
/// the value shifted into `0 .. 8 * 256^e`.
pub proof fn lemma_signed_low_bits(v: int)
    ensures
        0 <= v % (8 * (pow256(signed_extra(v)) as int)) < 8 * pow256(signed_extra(v)),
        v >= 0 ==> v % (8 * (pow256(signed_extra(v)) as int)) == v,
        v < 0 ==> v % (8 * (pow256(signed_extra(v)) as int)) == v + 8 * pow256(signed_extra(v)),
{
    let e = signed_extra(v);
    let m = 8 * (pow256(e) as int);
    lemma_pow256_pos(e);
    lemma_signed_extra_fits(v);
    lemma_mod_bound(v, m);
    if v >= 0 {
        lemma_small_mod(v as nat, m as nat);
    } else {
        lemma_mod_add_multiples_vanish(v, m);
        lemma_small_mod((v + m) as nat, m as nat);
    }
}

/// Round trip: the encoding of `v`, followed by anything at all, carries
/// the header of `v` and decodes back to `v`.
pub proof fn lemma_signed_round_trip(v: int, rest: Seq<u8>)
    requires
        -pow2(123) <= v < pow2(123),
    ensures
        ({
            let s = signed_encoding(v) + rest;
            &&& signed_encoding(v).len() == signed_extra(v) + 1
            &&& signed_header_extra(s) == signed_extra(v)
            &&& signed_header_neg(s) == (v < 0)
            &&& s.len() >= signed_header_extra(s) + 1
            &&& signed_decoded(s) == v
        }),
{
    let e = signed_extra(v);
    let p = pow256(e);
    let m = 8 * (p as int);
    let code = signed_code(v);
    let lo = v % m;
    lemma_pow2_123();
    lemma_signed_extra_le(v, 15);
    lemma_signed_extra_fits(v);
    lemma_signed_low_bits(v);
    lemma_pow256_pos(e);
    lemma_pow256_unfold((e + 1) as nat);
    assert(0 <= code <= 31);
    assert(0 <= code * m + lo < 256 * (p as int)) by (nonlinear_arith)
        requires
            0 <= code <= 31,
            0 <= lo < m,
            m == 8 * (p as int),
            p >= 1,
    ;
    let h = (code * m + lo) as nat;
    lemma_be_bytes_len(h, e + 1);
    let enc = signed_encoding(v);
    let s = enc + rest;
    lemma_be_bytes_first(h, e + 1);
    assert(h as int == lo + (code * 8) * (p as int)) by (nonlinear_arith)
        requires
            h == code * m + lo,
            m == 8 * (p as int),
    ;
    lemma_hoist_over_denominator(lo, code * 8, p);
    let t = lo / (p as int);
    lemma_multiply_divide_lt(lo, p as int, 8);
    lemma_div_pos_is_pos(lo, p as int);
    assert(s[0] == enc[0]);
    assert(s[0] as nat == 8 * code + t);
    // The top five bits give back the code, hence the count and the sign.
    lemma_hoist_over_denominator(t, code, 8);
    lemma_basic_div(t, 8);
    assert(signed_header_code(s) == code);
    assert(signed_header_neg(s) == (v < 0));
    assert(signed_header_extra(s) == e);
    // The low three bits give back the top of the magnitude.
    lemma_mod_multiples_vanish(code, t, 8);
    lemma_small_mod(t as nat, 8);
    assert((s[0] as nat) % 8 == t);
    // The remaining bytes give back the rest of the magnitude.
    lemma_be_bytes_split(h, 1, e);
    lemma_be_bytes_len(h / p, 1);
    lemma_be_bytes_len(h % p, e);
    assert(s.subrange(1, e + 1 as int) =~= be_bytes(h % p, e));
    lemma_be_val_of_be_bytes(h % p, e);
    lemma_mod_bound(h as int, p as int);
    lemma_small_mod((h % p) as nat, p);
    assert(h as int == (p as int) * (code * 8) + lo) by (nonlinear_arith)
        requires
            h == code * m + lo,
            m == 8 * (p as int),
    ;
    lemma_mod_multiples_vanish(code * 8, lo, p as int);
    assert(h % p == lo % (p as int));
    lemma_fundamental_div_mod(lo, p as int);
    assert(t * (p as int) + lo % (p as int) == lo);
    assert(signed_decoded(s) == v);
}

/// The header code never decreases as the value grows.
proof fn lemma_signed_code_monotone(a: int, b: int)
    requires
        a < b,
        -pow2(123) <= a,
        b < pow2(123),
    ensures
        signed_code(a) <= signed_code(b),
{
    lemma_pow2_123();
    if a >= 0 {
        // Both non-negative: the count grows with the value.
        lemma_signed_extra_fits(b);
        lemma_pow256_pos(signed_extra(b));
        lemma_signed_extra_le(a, signed_extra(b));
    } else if b < 0 {
        // Both negative: the count shrinks as the value grows toward zero.
        lemma_signed_extra_fits(a);
        lemma_pow256_pos(signed_extra(a));
        lemma_signed_extra_le(b, signed_extra(a));
    } else {
        // Negative before non-negative: the codes sit in disjoint halves.
        lemma_signed_extra_le(a, 15);
        lemma_signed_extra_le(b, 15);
    }
}

/// Numeric order turns into lexicographic order of the encodings.
pub proof fn lemma_signed_order(a: int, b: int)
    requires
        a < b,
        -pow2(123) <= a,
        b < pow2(123),
    ensures
        lex_less(signed_encoding(a), signed_encoding(b)),
{
    let ea = signed_extra(a);
    let eb = signed_extra(b);
    let pa = pow256(ea);
    let pb = pow256(eb);
    let ma = 8 * (pa as int);
    let mb = 8 * (pb as int);
    let ca = signed_code(a);
    let cb = signed_code(b);
    let la = a % ma;
    let lb = b % mb;
    let ha = (ca * ma + la) as nat;
    let hb = (cb * mb + lb) as nat;
    lemma_pow2_123();
    lemma_signed_extra_le(a, 15);
    lemma_signed_extra_le(b, 15);
    lemma_signed_extra_fits(a);
    lemma_signed_extra_fits(b);
    lemma_signed_low_bits(a);
    lemma_signed_low_bits(b);
    lemma_pow256_pos(ea);
    lemma_pow256_pos(eb);
    lemma_pow256_unfold((ea + 1) as nat);
    lemma_pow256_unfold((eb + 1) as nat);
    lemma_signed_code_monotone(a, b);
    assert(0 <= ca * ma + la < 256 * (pa as int) && 0 <= cb * mb + lb < 256 * (pb as int))
        by (nonlinear_arith)
        requires
            0 <= ca <= 31,
            0 <= cb <= 31,
            0 <= la < ma,
            0 <= lb < mb,
            ma == 8 * (pa as int),
            mb == 8 * (pb as int),
            pa >= 1,
            pb >= 1,
    ;
    lemma_be_bytes_first(ha, ea + 1);
    lemma_be_bytes_first(hb, eb + 1);
    if ca == cb {
        // Same code, so the same sign and the same length; the low bits
        // keep the strict order.
        assert(ea == eb);
        assert(la < lb);
        assert(ha < hb) by (nonlinear_arith)
            requires
                ha == ca * ma + la,
                hb == cb * mb + lb,
                ca == cb,
                ma == mb,
                la < lb,
        ;
        lemma_be_bytes_order(ha, hb, (ea + 1) as nat);
    } else {
        // The codes differ, so already the header bytes are strictly
        // ordered.
        assert(ha as int == la + (ca * 8) * (pa as int)) by (nonlinear_arith)
            requires
                ha == ca * ma + la,
                ma == 8 * (pa as int),
        ;
        assert(hb as int == lb + (cb * 8) * (pb as int)) by (nonlinear_arith)
            requires
                hb == cb * mb + lb,
                mb == 8 * (pb as int),
        ;
        lemma_hoist_over_denominator(la, ca * 8, pa);
        lemma_hoist_over_denominator(lb, cb * 8, pb);
        lemma_multiply_divide_lt(la, pa as int, 8);
        lemma_multiply_divide_lt(lb, pb as int, 8);
        lemma_div_pos_is_pos(la, pa as int);
        lemma_div_pos_is_pos(lb, pb as int);
        assert(ha / pa == 8 * ca + la / (pa as int));
        assert(hb / pb == 8 * cb + lb / (pb as int));
        assert(signed_encoding(a).first() < signed_encoding(b).first());
    }
}

/// Law: for representable values, numeric order and byte-wise
/// lexicographic order of the encodings coincide exactly.
pub proof fn lemma_signed_order_preserving(a: int, b: int)
    requires
        -pow2(123) <= a < pow2(123),
        -pow2(123) <= b < pow2(123),
    ensures
        a < b <==> lex_less(signed_encoding(a), signed_encoding(b)),
{
    if a < b {
        lemma_signed_order(a, b);
    } else if b < a {
        lemma_signed_order(b, a);
        lemma_lex_less_asym(signed_encoding(b), signed_encoding(a));
    } else {
        lemma_lex_less_irrefl(signed_encoding(a));
    }
}

/// Law: within one sign, the encoded length never shrinks as the
/// magnitude grows.
pub proof fn lemma_signed_length_monotone(a: int, b: int)
    requires
        0 <= a <= b || b <= a < 0,
        -pow2(123) <= b < pow2(123),
    ensures
        signed_encoding(a).len() <= signed_encoding(b).len(),
{
    lemma_pow2_123();
    lemma_signed_extra_fits(b);
    lemma_pow256_pos(signed_extra(b));
    lemma_signed_extra_le(a, signed_extra(b));
    let ea = signed_extra(a);
    let eb = signed_extra(b);
    lemma_be_bytes_len((signed_code(a) * (8 * (pow256(ea) as int)) + a % (8 * (pow256(ea) as int))) as nat, ea + 1);
    lemma_be_bytes_len((signed_code(b) * (8 * (pow256(eb) as int)) + b % (8 * (pow256(eb) as int))) as nat, eb + 1);
}

/// A signed integer value.
///
/// This type encodes values in the range `-2.pow(123)..2.pow(123)` by
/// using the first 5 bits to denote a signed byte `length`. This length
/// ranges from `-15..=15`. The number of bytes read is always absolute,
/// but the sign of the length is used to determine the overall sign of
/// the encoded value. The remaining 3 bits of the first byte and any
/// additional bytes are then used to store the integer in big-endian
/// encoding.
#[derive(Clone, Copy, Debug, Hash, PartialEq, Eq, Ord, PartialOrd, Structural)]
pub struct Signed(pub i128);

impl Signed {
    /// Appends the canonical signed encoding of `value` to `output`,
    /// returning the number of bytes written.
    pub fn encode_be_bytes(value: i128, output: &mut Vec<u8>) -> (result: Result<usize, Error>)
        ensures
            -pow2(123) <= (value as int) && (value as int) < pow2(123) ==> ({
                &&& result == Ok::<usize, Error>((signed_extra(value as int) + 1) as usize)
                &&& signed_extra(value as int) <= 15
                &&& signed_encoding(value as int).len() == signed_extra(value as int) + 1
                &&& final(output)@ == old(output)@ + signed_encoding(value as int)
            }),
            !(-pow2(123) <= (value as int) && (value as int) < pow2(123)) ==> ({
                &&& result == Err::<usize, Error>(Error::OutOfRange)
                &&& final(output)@ == old(output)@
            }),
    {
        proof {
            lemma_pow2_123();
            lemma_pow256_fits_u128(16);
            vstd::arithmetic::power2::lemma_pow2_strictly_increases(123, 128);
        }
        let p15: u128 = exec_pow256(15);
        // One magnitude decides the payload count for either sign: for
        // negative values it is the ones'-complement, so that the count
        // comes out against the sign-extension byte `0xFF`.
        let vu: u128 = if value >= 0 {
            value as u128
        } else {
            (-(value + 1)) as u128
        };
        if vu >= 8 * p15 {
            return Err(Error::OutOfRange);
        }
        proof {
            lemma_signed_extra_le(value as int, 15);
        }
        let mut e: usize = 0;
        let mut bu: u128 = 8;
        proof {
            lemma_pow256_zero();
        }
        while vu >= bu
            invariant
                bu as nat == 8 * pow256(e as nat),
                e <= signed_extra(value as int),
                signed_extra(value as int) <= 15,
                vu as int == (if value >= 0 {
                    value as int
                } else {
                    -(value as int) - 1
                }),
            decreases 15 - e,
        {
            proof {
                let v = value as int;
                let ex = signed_extra(v);
                lemma_signed_extra_fits(v);
                if ex <= e as nat {
                    lemma_pow256_increases(ex, e as nat);
                    assert(false);
                }
                lemma_pow256_unfold((e + 1) as nat);
                lemma_pow256_increases((e + 1) as nat, 15);
                lemma_pow2_123();
                lemma_pow256_fits_u128(16);
                vstd::arithmetic::power2::lemma_pow2_strictly_increases(123, 128);
            }
            bu = bu * 256;
            e = e + 1;
        }
        proof {
            lemma_signed_extra_le(value as int, e as nat);
        }
        // Now `e` is the payload count and `bu == 8 * 256^e`.
        let lo: u128 = if value >= 0 {
            vu
        } else {
            bu - 1 - vu
        };
        let code: u128 = if value >= 0 {
            16 + e as u128
        } else {
            15 - e as u128
        };
        proof {
            let v = value as int;
            lemma_signed_low_bits(v);
            lemma_pow256_pos(e as nat);
            lemma_pow256_unfold((e + 1) as nat);
            lemma_pow256_increases((e + 1) as nat, 16);
            lemma_pow256_fits_u128(16);
            assert(0 <= (code as int) * (bu as int) + (lo as int) && (code as int) * (bu as int)
                + (lo as int) < 256 * (pow256(e as nat) as int)) by (nonlinear_arith)
                requires
                    0 <= code <= 31,
                    0 <= lo < bu,
                    bu as int == 8 * (pow256(e as nat) as int),
            ;
        }
        let h: u128 = code * bu + lo;
        write_be(h, e + 1, output);
        proof {
            lemma_be_bytes_len(h as nat, (e + 1) as nat);
        }
        Ok(e + 1)
    }

    /// Number of payload bytes that follow a leading byte `header`: how
    /// many more bytes a reader must supply before the value can be
    /// decoded.
    pub fn header_extra_bytes(header: u8) -> (count: usize)
        ensures
            count <= 15,
            forall|s: Seq<u8>|
                s.len() >= 1 && s[0] == header ==> count as nat == signed_header_extra(s),
    {
        let code: usize = (header / 8) as usize;
        if code < 16 {
            15 - code
        } else {
            code - 16
        }
    }

    /// Decodes one canonical signed value from the front of `source`,
    /// returning it with the number of bytes consumed.  `width` is the
    /// byte width of the requested native type: a header that announces
    /// more payload bytes than `width` is rejected outright.
    pub fn decode_variable_bytes(source: &[u8], width: usize) -> (result: Result<
        (i128, usize),
        Error,
    >)
        requires
            1 <= width <= 16,
        ensures
            ({
                let s = source@;
                match result {
                    Ok((value, consumed)) => {
                        &&& s.len() >= 1
                        &&& signed_header_extra(s) <= width
                        &&& s.len() >= signed_header_extra(s) + 1
                        &&& value as int == signed_decoded(s)
                        &&& -pow2(123) <= (value as int) && (value as int) < pow2(123)
                        &&& consumed == signed_header_extra(s) + 1
                    },
                    Err(Error::Truncated) => s.len() == 0 || (signed_header_extra(s) <= width
                        && s.len() < signed_header_extra(s) + 1),
                    Err(Error::InvalidHeader) => s.len() >= 1 && signed_header_extra(s) > width,
                    Err(Error::OutOfRange) => false,
                }
            }),
    {
        if source.len() == 0 {
            return Err(Error::Truncated);
        }
        let b0: u8 = source[0];
        let code: usize = (b0 / 8) as usize;
        let neg: bool = code < 16;
        let extra: usize = if neg {
            15 - code
        } else {
            code - 16
        };
        if extra > width {
            return Err(Error::InvalidHeader);
        }
        if source.len() < extra + 1 {
            return Err(Error::Truncated);
        }
        let mag: u128 = read_be(source, b0 % 8, extra);
        proof {
            lemma_pow2_123();
            lemma_pow256_increases(extra as nat, 15);
            lemma_pow256_fits_u128(16);
            lemma_pow2_adds(5, 123);
            lemma2_to64();
            vstd::arithmetic::power2::lemma_pow2_pos(123);
            vstd::arithmetic::power2::lemma_pow2_strictly_increases(123, 128);
            let sub = source@.subrange(1, extra + 1 as int);
            lemma_be_val_bound(sub);
            assert(sub.len() == extra as nat);
            assert((mag as nat) < 8 * pow256(extra as nat)) by (nonlinear_arith)
                requires
                    mag as nat == ((b0 % 8) as nat) * pow256(extra as nat) + be_val(sub),
                    ((b0 % 8) as nat) <= 7,
                    be_val(sub) < pow256(extra as nat),
            ;
        }
        let m: u128 = 8 * exec_pow256(extra);
        let value: i128 = if neg {
            (mag as i128) - (m as i128)
        } else {
            mag as i128
        };
        Ok((value, extra + 1))
    }
}

impl From<i8> for Signed {
    fn from(value: i8) -> (result: Self) {
        Signed(value as i128)
    }
}

impl vstd::std_specs::convert::FromSpecImpl<i8> for Signed {
    open spec fn obeys_from_spec() -> bool {
        true
    }

    open spec fn from_spec(v: i8) -> Self {
        Signed(v as i128)
    }
}

impl From<i16> for Signed {
    fn from(value: i16) -> (result: Self) {
        Signed(value as i128)
    }
}

impl vstd::std_specs::convert::FromSpecImpl<i16> for Signed {
    open spec fn obeys_from_spec() -> bool {
        true
    }

    open spec fn from_spec(v: i16) -> Self {
        Signed(v as i128)
    }
}

impl From<i32> for Signed {
    fn from(value: i32) -> (result: Self) {
        Signed(value as i128)
    }
}

impl vstd::std_specs::convert::FromSpecImpl<i32> for Signed {
    open spec fn obeys_from_spec() -> bool {
        true
    }

    open spec fn from_spec(v: i32) -> Self {
        Signed(v as i128)
    }
}

impl From<i64> for Signed {
    fn from(value: i64) -> (result: Self) {
        Signed(value as i128)
    }
}

impl vstd::std_specs::convert::FromSpecImpl<i64> for Signed {
    open spec fn obeys_from_spec() -> bool {
        true
    }

    open spec fn from_spec(v: i64) -> Self {
        Signed(v as i128)
    }
}

impl From<i128> for Signed {
    fn from(value: i128) -> (result: Self) {
        Signed(value as i128)
    }
}

impl vstd::std_specs::convert::FromSpecImpl<i128> for Signed {
    open spec fn obeys_from_spec() -> bool {
        true
    }

    open spec fn from_spec(v: i128) -> Self {
        Signed(v as i128)
    }
}

impl From<isize> for Signed {
    fn from(value: isize) -> (result: Self) {
        Signed(value as i128)
    }
}

impl vstd::std_specs::convert::FromSpecImpl<isize> for Signed {
    open spec fn obeys_from_spec() -> bool {
        true
    }

    open spec fn from_spec(v: isize) -> Self {
        Signed(v as i128)
    }
}

impl TryFrom<Signed> for i8 {
    type Error = Error;

    fn try_from(value: Signed) -> (result: Result<Self, Error>) {
        if i8::MIN as i128 <= value.0 && value.0 <= i8::MAX as i128 {
            Ok(value.0 as i8)
        } else {
            Err(Error::OutOfRange)
        }
    }
}

impl vstd::std_specs::convert::TryFromSpecImpl<Signed> for i8 {
    open spec fn obeys_try_from_spec() -> bool {
        true
    }

    open spec fn try_from_spec(v: Signed) -> Result<Self, Error> {
        if i8::MIN <= v.0 <= i8::MAX {
            Ok(v.0 as i8)
        } else {
            Err(Error::OutOfRange)
        }
    }
}

impl TryFrom<Signed> for i16 {
    type Error = Error;

    fn try_from(value: Signed) -> (result: Result<Self, Error>) {
        if i16::MIN as i128 <= value.0 && value.0 <= i16::MAX as i128 {
            Ok(value.0 as i16)
        } else {
            Err(Error::OutOfRange)
        }
    }
}

impl vstd::std_specs::convert::TryFromSpecImpl<Signed> for i16 {
    open spec fn obeys_try_from_spec() -> bool {
        true
    }

    open spec fn try_from_spec(v: Signed) -> Result<Self, Error> {
        if i16::MIN <= v.0 <= i16::MAX {
            Ok(v.0 as i16)
        } else {
            Err(Error::OutOfRange)
        }
    }
}

impl TryFrom<Signed> for i32 {
    type Error = Error;

    fn try_from(value: Signed) -> (result: Result<Self, Error>) {
        if i32::MIN as i128 <= value.0 && value.0 <= i32::MAX as i128 {
            Ok(value.0 as i32)
        } else {
            Err(Error::OutOfRange)
        }
    }
}

impl vstd::std_specs::convert::TryFromSpecImpl<Signed> for i32 {
    open spec fn obeys_try_from_spec() -> bool {
        true
    }

    open spec fn try_from_spec(v: Signed) -> Result<Self, Error> {
        if i32::MIN <= v.0 <= i32::MAX {
            Ok(v.0 as i32)
        } else {
            Err(Error::OutOfRange)
        }
    }
}

impl TryFrom<Signed> for i64 {
    type Error = Error;

    fn try_from(value: Signed) -> (result: Result<Self, Error>) {
        if i64::MIN as i128 <= value.0 && value.0 <= i64::MAX as i128 {
            Ok(value.0 as i64)
        } else {
            Err(Error::OutOfRange)
        }
    }
}

impl vstd::std_specs::convert::TryFromSpecImpl<Signed> for i64 {
    open spec fn obeys_try_from_spec() -> bool {
        true
    }

    open spec fn try_from_spec(v: Signed) -> Result<Self, Error> {
        if i64::MIN <= v.0 <= i64::MAX {
            Ok(v.0 as i64)
        } else {
            Err(Error::OutOfRange)
        }
    }
}

impl TryFrom<Signed> for isize {
    type Error = Error;

    fn try_from(value: Signed) -> (result: Result<Self, Error>) {
        if isize::MIN as i128 <= value.0 && value.0 <= isize::MAX as i128 {
            Ok(value.0 as isize)
        } else {
            Err(Error::OutOfRange)
        }
    }
}

impl vstd::std_specs::convert::TryFromSpecImpl<Signed> for isize {
    open spec fn obeys_try_from_spec() -> bool {
        true
    }

    open spec fn try_from_spec(v: Signed) -> Result<Self, Error> {
        if isize::MIN <= v.0 <= isize::MAX {
            Ok(v.0 as isize)
        } else {
            Err(Error::OutOfRange)
        }
    }
}

impl From<Signed> for i128 {
    fn from(value: Signed) -> (result: Self) {
        value.0
    }
}

impl vstd::std_specs::convert::FromSpecImpl<Signed> for i128 {
    open spec fn obeys_from_spec() -> bool {
        true
    }

    open spec fn from_spec(v: Signed) -> Self {
        v.0
    }
}

} // verus!
