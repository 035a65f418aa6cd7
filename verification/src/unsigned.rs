//! The canonical unsigned codec.
//!
//! Values in `0 .. 2^124` are encoded as one header byte plus up to fifteen
//! payload bytes.  The top four bits of the header byte hold the payload
//! count; the low four bits and the payload bytes hold the magnitude,
//! big-endian.  Because the count grows with the magnitude and sits in the
//! most significant bits, byte-wise lexicographic order of encodings agrees
//! with numeric order.

use vstd::prelude::*;
use vstd::arithmetic::power2::{pow2, lemma_pow2_adds, lemma2_to64};
use vstd::arithmetic::div_mod::{
    lemma_basic_div, lemma_div_decreases, lemma_fundamental_div_mod, lemma_hoist_over_denominator,
    lemma_mod_bound, lemma_mod_multiples_vanish, lemma_multiply_divide_lt, lemma_small_mod,
};

use crate::bytes::{
    be_bytes, be_val, lemma_be_bytes_first, lemma_be_bytes_len, lemma_be_bytes_order,
    lemma_be_bytes_split, lemma_be_val_of_be_bytes, lemma_lex_less_asym, lemma_lex_less_irrefl,
    lemma_pow256_fits_u128, lemma_pow256_increases, lemma_pow256_pos, lemma_pow256_unfold,
    lemma_pow256_zero, lex_less, pow256, exec_pow256, read_be, write_be,
};
use crate::Error;

verus! {

/// Number of payload bytes that follow the header byte when `v` is
/// encoded: the least `e` with `v < 16 * 256^e`, so that after `e` whole
/// bytes the remaining magnitude fits the four low bits of the header.
pub open spec fn unsigned_extra(v: nat) -> nat
    decreases v,
{
    if v < 16 {
        0
    } else {
        1 + unsigned_extra(v / 256)
    }
}

/// The encoded form of `v`: `e + 1` bytes holding `16*e*256^e + v`
/// big-endian, which places `e` in the top four bits of the first byte.
pub open spec fn unsigned_encoding(v: nat) -> Seq<u8> {
    let e = unsigned_extra(v);
    be_bytes(e * 16 * pow256(e) + v, e + 1)
}

/// The payload count announced by the header byte of `s`.
pub open spec fn unsigned_header_extra(s: Seq<u8>) -> nat {
    (s[0] as nat) / 16
}

/// The value a byte string decodes to, when it is long enough.
pub open spec fn unsigned_decoded(s: Seq<u8>) -> nat {
    let e = unsigned_header_extra(s);
    ((s[0] as nat) % 16) * pow256(e) + be_val(s.subrange(1, e + 1 as int))
}

/// `2^124` is the count of values the format can carry: sixteen choices of
/// leading bits times `256^15` payload choices at the widest.
pub proof fn lemma_pow2_124()
    ensures
        pow2(124) == 16 * pow256(15),
{
    lemma_pow2_adds(4, 120);
    lemma2_to64();
}

/// A value below `16 * 256^k` needs at most `k` payload bytes.
pub proof fn lemma_unsigned_extra_le(v: nat, k: nat)
    requires
        v < 16 * pow256(k),
    ensures
        unsigned_extra(v) <= k,
    decreases k,
{
    lemma_pow256_zero();
    if v >= 16 {
        lemma_pow256_unfold(k);
        lemma_pow256_pos((k - 1) as nat);
        lemma_multiply_divide_lt(v as int, 256, (16 * pow256((k - 1) as nat)) as int);
        lemma_div_decreases(v as int, 256);
        lemma_unsigned_extra_le(v / 256, (k - 1) as nat);
    }
}

/// The payload count is large enough: `v < 16 * 256^e`.
pub proof fn lemma_unsigned_extra_fits(v: nat)
    ensures
        v < 16 * pow256(unsigned_extra(v)),
    decreases v,
{
    lemma_pow256_zero();
    if v >= 16 {
        lemma_div_decreases(v as int, 256);
        lemma_unsigned_extra_fits(v / 256);
        let e1 = unsigned_extra(v / 256);
        lemma_pow256_unfold((e1 + 1) as nat);
        lemma_fundamental_div_mod(v as int, 256);
        lemma_mod_bound(v as int, 256);
    }
}

/// Round trip: the encoding of `v`, followed by anything at all, carries
/// the header of `v` and decodes back to `v`.
pub proof fn lemma_unsigned_round_trip(v: nat, rest: Seq<u8>)
    requires
        v < pow2(124),
    ensures
        ({
            let s = unsigned_encoding(v) + rest;
            &&& unsigned_encoding(v).len() == unsigned_extra(v) + 1
            &&& unsigned_header_extra(s) == unsigned_extra(v)
            &&& s.len() >= unsigned_header_extra(s) + 1
            &&& unsigned_decoded(s) == v
        }),
{
    let e = unsigned_extra(v);
    let p = pow256(e);
    let h = e * 16 * p + v;
    lemma_pow2_124();
    lemma_unsigned_extra_le(v, 15);
    lemma_unsigned_extra_fits(v);
    lemma_pow256_pos(e);
    lemma_pow256_unfold((e + 1) as nat);
    assert(h < 256 * p) by (nonlinear_arith)
        requires
            e <= 15,
            v < 16 * p,
            h == e * 16 * p + v,
            p >= 1,
    ;
    lemma_be_bytes_len(h, e + 1);
    let enc = unsigned_encoding(v);
    let s = enc + rest;
    lemma_be_bytes_first(h, e + 1);
    lemma_hoist_over_denominator(v as int, (e * 16) as int, p);
    let t = v / p;
    lemma_multiply_divide_lt(v as int, p as int, 16);
    assert(s[0] == enc[0]);
    assert(s[0] as nat == 16 * e + t);
    // The top four bits give back the payload count, the rest the top of
    // the magnitude.
    lemma_hoist_over_denominator(t as int, e as int, 16);
    lemma_basic_div(t as int, 16);
    assert(unsigned_header_extra(s) == e);
    lemma_mod_multiples_vanish(e as int, t as int, 16);
    lemma_small_mod(t, 16);
    assert((s[0] as nat) % 16 == t);
    // The remaining bytes give back the rest of the magnitude.
    lemma_be_bytes_split(h, 1, e);
    lemma_be_bytes_len(h / p, 1);
    lemma_be_bytes_len(h % p, e);
    assert(s.subrange(1, e + 1 as int) =~= be_bytes(h % p, e));
    lemma_be_val_of_be_bytes(h % p, e);
    lemma_mod_bound(h as int, p as int);
    lemma_small_mod((h % p) as nat, p);
    lemma_mod_multiples_vanish((e * 16) as int, v as int, p as int);
    assert(h as int == (p as int) * ((e * 16) as int) + v) by (nonlinear_arith)
        requires
            h == e * 16 * p + v,
    ;
    assert(h % p == v % p);
    lemma_fundamental_div_mod(v as int, p as int);
    assert(unsigned_decoded(s) == v);
}

/// Numeric order turns into lexicographic order of the encodings.
pub proof fn lemma_unsigned_order(a: nat, b: nat)
    requires
        a < b,
        b < pow2(124),
    ensures
        lex_less(unsigned_encoding(a), unsigned_encoding(b)),
{
    let ea = unsigned_extra(a);
    let eb = unsigned_extra(b);
    let pa = pow256(ea);
    let pb = pow256(eb);
    let ha = ea * 16 * pa + a;
    let hb = eb * 16 * pb + b;
    lemma_pow2_124();
    lemma_unsigned_extra_fits(a);
    lemma_unsigned_extra_fits(b);
    lemma_unsigned_extra_le(b, 15);
    lemma_unsigned_extra_le(a, eb);
    lemma_pow256_pos(ea);
    lemma_pow256_pos(eb);
    lemma_pow256_unfold((ea + 1) as nat);
    lemma_pow256_unfold((eb + 1) as nat);
    assert(ha < 256 * pa && hb < 256 * pb) by (nonlinear_arith)
        requires
            ea <= 15,
            eb <= 15,
            a < 16 * pa,
            b < 16 * pb,
            ha == ea * 16 * pa + a,
            hb == eb * 16 * pb + b,
            pa >= 1,
            pb >= 1,
    ;
    lemma_be_bytes_first(ha, ea + 1);
    lemma_be_bytes_first(hb, eb + 1);
    if ea == eb {
        lemma_be_bytes_order(ha, hb, (ea + 1) as nat);
    } else {
        // The payload counts differ, so already the header bytes are
        // strictly ordered.
        lemma_hoist_over_denominator(a as int, (ea * 16) as int, pa);
        lemma_hoist_over_denominator(b as int, (eb * 16) as int, pb);
        lemma_multiply_divide_lt(a as int, pa as int, 16);
        lemma_multiply_divide_lt(b as int, pb as int, 16);
        assert(ha / pa == 16 * ea + a / pa);
        assert(hb / pb == 16 * eb + b / pb);
        assert(unsigned_encoding(a).first() < unsigned_encoding(b).first());
    }
}

/// Law: for representable values, numeric order and byte-wise
/// lexicographic order of the encodings coincide exactly.
pub proof fn lemma_unsigned_order_preserving(a: nat, b: nat)
    requires
        a < pow2(124),
        b < pow2(124),
    ensures
        a < b <==> lex_less(unsigned_encoding(a), unsigned_encoding(b)),
{
    if a < b {
        lemma_unsigned_order(a, b);
    } else if b < a {
        lemma_unsigned_order(b, a);
        lemma_lex_less_asym(unsigned_encoding(b), unsigned_encoding(a));
    } else {
        lemma_lex_less_irrefl(unsigned_encoding(a));
    }
}

/// Law: the encoded length never shrinks as the value grows.
pub proof fn lemma_unsigned_length_monotone(a: nat, b: nat)
    requires
        a <= b,
        b < pow2(124),
    ensures
        unsigned_encoding(a).len() <= unsigned_encoding(b).len(),
{
    lemma_pow2_124();
    lemma_unsigned_extra_fits(b);
    lemma_unsigned_extra_le(a, unsigned_extra(b));
    let ea = unsigned_extra(a);
    let eb = unsigned_extra(b);
    lemma_be_bytes_len(ea * 16 * pow256(ea) + a, ea + 1);
    lemma_be_bytes_len(eb * 16 * pow256(eb) + b, eb + 1);
}

/// An unsigned integer value.
///
/// This type encodes values in the range `0..2.pow(124)` by using the first
/// 4 bits to denote an unsigned byte `length`. This length ranges from
/// `0..=15`. The remaining 4 bits of the first byte and any additional
/// bytes are then used to store the integer in big-endian encoding.
#[derive(Clone, Copy, Debug, Hash, PartialEq, Eq, Ord, PartialOrd, Structural)]
pub struct Unsigned(pub u128);

impl Unsigned {
    /// Appends the canonical unsigned encoding of `value` to `output`,
    /// returning the number of bytes written.
    pub fn encode_be_bytes(value: u128, output: &mut Vec<u8>) -> (result: Result<usize, Error>)
        ensures
            (value as nat) < pow2(124) ==> ({
                &&& result == Ok::<usize, Error>((unsigned_extra(value as nat) + 1) as usize)
                &&& unsigned_extra(value as nat) <= 15
                &&& unsigned_encoding(value as nat).len() == unsigned_extra(value as nat) + 1
                &&& final(output)@ == old(output)@ + unsigned_encoding(value as nat)
            }),
            (value as nat) >= pow2(124) ==> ({
                &&& result == Err::<usize, Error>(Error::OutOfRange)
                &&& final(output)@ == old(output)@
            }),
    {
        let p15: u128 = exec_pow256(15);
        proof {
            lemma_pow2_124();
            lemma_pow256_fits_u128(16);
            vstd::arithmetic::power2::lemma_pow2_strictly_increases(124, 128);
        }
        if value >= 16 * p15 {
            return Err(Error::OutOfRange);
        }
        proof {
            lemma_unsigned_extra_le(value as nat, 15);
        }
        let mut e: usize = 0;
        let mut t: u128 = value;
        while t >= 16
            invariant
                unsigned_extra(value as nat) == e + unsigned_extra(t as nat),
                e <= unsigned_extra(value as nat),
                unsigned_extra(value as nat) <= 15,
            decreases t,
        {
            proof {
                lemma_div_decreases(t as int, 256);
            }
            t = t / 256;
            e = e + 1;
        }
        let p: u128 = exec_pow256(e);
        proof {
            lemma_unsigned_extra_fits(value as nat);
            lemma_pow256_unfold((e + 1) as nat);
            lemma_pow256_increases((e + 1) as nat, 16);
            lemma_pow256_fits_u128(16);
            assert((e as nat) * 16 * pow256(e as nat) + value < 256 * pow256(e as nat))
                by (nonlinear_arith)
                requires
                    e <= 15,
                    (value as nat) < 16 * pow256(e as nat),
                    pow256(e as nat) >= 1,
            ;
            lemma_pow256_pos(e as nat);
        }
        let h: u128 = (e as u128) * 16 * p + value;
        write_be(h, e + 1, output);
        proof {
            lemma_be_bytes_len(h as nat, (e + 1) as nat);
        }
        Ok(e + 1)
    }

    /// Number of payload bytes that follow a leading byte `header`: how
    /// many more bytes a reader must supply before the value can be
    /// decoded.
    pub fn header_extra_bytes(header: u8) -> (count: usize)
        ensures
            count <= 15,
            forall|s: Seq<u8>|
                s.len() >= 1 && s[0] == header ==> count as nat == unsigned_header_extra(s),
    {
        (header / 16) as usize
    }

    /// Decodes one canonical unsigned value from the front of `source`,
    /// returning it with the number of bytes consumed.  `width` is the
    /// byte width of the requested native type: a header that announces
    /// more payload bytes than `width` is rejected outright.
    pub fn decode_variable_bytes(source: &[u8], width: usize) -> (result: Result<
        (u128, usize),
        Error,
    >)
        requires
            1 <= width <= 16,
        ensures
            ({
                let s = source@;
                match result {
                    Ok((value, consumed)) => {
                        &&& s.len() >= 1
                        &&& unsigned_header_extra(s) <= width
                        &&& s.len() >= unsigned_header_extra(s) + 1
                        &&& value as nat == unsigned_decoded(s)
                        &&& (value as nat) < pow2(124)
                        &&& consumed == unsigned_header_extra(s) + 1
                    },
                    Err(Error::Truncated) => s.len() == 0 || (unsigned_header_extra(s) <= width
                        && s.len() < unsigned_header_extra(s) + 1),
                    Err(Error::InvalidHeader) => s.len() >= 1 && unsigned_header_extra(s) > width,
                    Err(Error::OutOfRange) => false,
                }
            }),
    {
        if source.len() == 0 {
            return Err(Error::Truncated);
        }
        let b0: u8 = source[0];
        let extra: usize = (b0 / 16) as usize;
        if extra > width {
            return Err(Error::InvalidHeader);
        }
        if source.len() < extra + 1 {
            return Err(Error::Truncated);
        }
        let value: u128 = read_be(source, b0 % 16, extra);
        proof {
            lemma_pow2_124();
            lemma_pow256_increases(extra as nat, 15);
        }
        Ok((value, extra + 1))
    }
}

impl From<u8> for Unsigned {
    fn from(value: u8) -> (result: Self) {
        Unsigned(value as u128)
    }
}

impl vstd::std_specs::convert::FromSpecImpl<u8> for Unsigned {
    open spec fn obeys_from_spec() -> bool {
        true
    }

    open spec fn from_spec(v: u8) -> Self {
        Unsigned(v as u128)
    }
}

impl From<u16> for Unsigned {
    fn from(value: u16) -> (result: Self) {
        Unsigned(value as u128)
    }
}

impl vstd::std_specs::convert::FromSpecImpl<u16> for Unsigned {
    open spec fn obeys_from_spec() -> bool {
        true
    }

    open spec fn from_spec(v: u16) -> Self {
        Unsigned(v as u128)
    }
}

impl From<u32> for Unsigned {
    fn from(value: u32) -> (result: Self) {
        Unsigned(value as u128)
    }
}

impl vstd::std_specs::convert::FromSpecImpl<u32> for Unsigned {
    open spec fn obeys_from_spec() -> bool {
        true
    }

    open spec fn from_spec(v: u32) -> Self {
        Unsigned(v as u128)
    }
}

impl From<u64> for Unsigned {
    fn from(value: u64) -> (result: Self) {
        Unsigned(value as u128)
    }
}

impl vstd::std_specs::convert::FromSpecImpl<u64> for Unsigned {
    open spec fn obeys_from_spec() -> bool {
        true
    }

    open spec fn from_spec(v: u64) -> Self {
        Unsigned(v as u128)
    }
}

impl From<u128> for Unsigned {
    fn from(value: u128) -> (result: Self) {
        Unsigned(value as u128)
    }
}

impl vstd::std_specs::convert::FromSpecImpl<u128> for Unsigned {
    open spec fn obeys_from_spec() -> bool {
        true
    }

    open spec fn from_spec(v: u128) -> Self {
        Unsigned(v as u128)
    }
}

impl From<usize> for Unsigned {
    fn from(value: usize) -> (result: Self) {
        Unsigned(value as u128)
    }
}

impl vstd::std_specs::convert::FromSpecImpl<usize> for Unsigned {
    open spec fn obeys_from_spec() -> bool {
        true
    }

    open spec fn from_spec(v: usize) -> Self {
        Unsigned(v as u128)
    }
}

impl TryFrom<Unsigned> for u8 {
    type Error = Error;

    fn try_from(value: Unsigned) -> (result: Result<Self, Error>) {
        if value.0 <= u8::MAX as u128 {
            Ok(value.0 as u8)
        } else {
            Err(Error::OutOfRange)
        }
    }
}

impl vstd::std_specs::convert::TryFromSpecImpl<Unsigned> for u8 {
    open spec fn obeys_try_from_spec() -> bool {
        true
    }

    open spec fn try_from_spec(v: Unsigned) -> Result<Self, Error> {
        if v.0 <= u8::MAX {
            Ok(v.0 as u8)
        } else {
            Err(Error::OutOfRange)
        }
    }
}

impl TryFrom<Unsigned> for u16 {
    type Error = Error;

    fn try_from(value: Unsigned) -> (result: Result<Self, Error>) {
        if value.0 <= u16::MAX as u128 {
            Ok(value.0 as u16)
        } else {
            Err(Error::OutOfRange)
        }
    }
}

impl vstd::std_specs::convert::TryFromSpecImpl<Unsigned> for u16 {
    open spec fn obeys_try_from_spec() -> bool {
        true
    }

    open spec fn try_from_spec(v: Unsigned) -> Result<Self, Error> {
        if v.0 <= u16::MAX {
            Ok(v.0 as u16)
        } else {
            Err(Error::OutOfRange)
        }
    }
}

impl TryFrom<Unsigned> for u32 {
    type Error = Error;

    fn try_from(value: Unsigned) -> (result: Result<Self, Error>) {
        if value.0 <= u32::MAX as u128 {
            Ok(value.0 as u32)
        } else {
            Err(Error::OutOfRange)
        }
    }
}

impl vstd::std_specs::convert::TryFromSpecImpl<Unsigned> for u32 {
    open spec fn obeys_try_from_spec() -> bool {
        true
    }

    open spec fn try_from_spec(v: Unsigned) -> Result<Self, Error> {
        if v.0 <= u32::MAX {
            Ok(v.0 as u32)
        } else {
            Err(Error::OutOfRange)
        }
    }
}

impl TryFrom<Unsigned> for u64 {
    type Error = Error;

    fn try_from(value: Unsigned) -> (result: Result<Self, Error>) {
        if value.0 <= u64::MAX as u128 {
            Ok(value.0 as u64)
        } else {
            Err(Error::OutOfRange)
        }
    }
}

impl vstd::std_specs::convert::TryFromSpecImpl<Unsigned> for u64 {
    open spec fn obeys_try_from_spec() -> bool {
        true
    }

    open spec fn try_from_spec(v: Unsigned) -> Result<Self, Error> {
        if v.0 <= u64::MAX {
            Ok(v.0 as u64)
        } else {
            Err(Error::OutOfRange)
        }
    }
}

impl TryFrom<Unsigned> for usize {
    type Error = Error;

    fn try_from(value: Unsigned) -> (result: Result<Self, Error>) {
        if value.0 <= usize::MAX as u128 {
            Ok(value.0 as usize)
        } else {
            Err(Error::OutOfRange)
        }
    }
}

impl vstd::std_specs::convert::TryFromSpecImpl<Unsigned> for usize {
    open spec fn obeys_try_from_spec() -> bool {
        true
    }

    open spec fn try_from_spec(v: Unsigned) -> Result<Self, Error> {
        if v.0 <= usize::MAX {
            Ok(v.0 as usize)
        } else {
            Err(Error::OutOfRange)
        }
    }
}

impl From<Unsigned> for u128 {
    fn from(value: Unsigned) -> (result: Self) {
        value.0
    }
}

impl vstd::std_specs::convert::FromSpecImpl<Unsigned> for u128 {
    open spec fn obeys_from_spec() -> bool {
        true
    }

    open spec fn from_spec(v: Unsigned) -> Self {
        v.0
    }
}

} // verus!
