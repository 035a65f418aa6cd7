//! An order-preserving variable-length integer codec.
//!
//! Fixed-width integers (8 to 128 bits, signed or unsigned) are encoded into
//! short byte strings whose unsigned byte-wise lexicographic order agrees
//! with the numeric order of the values, so that the encodings can serve as
//! keys in ordered byte stores.
//!
//! Every value is first widened to one of two canonical 128-bit forms.
//! [`Unsigned`] covers `0 .. 2^124` with a 4-bit length header packed into
//! the leading byte; [`Signed`] covers `-2^123 .. 2^123` with a 5-bit signed
//! length header.  The [`Variable`] trait adapts each native integer type
//! onto one of the two canonical codecs: encoding widens losslessly, and
//! decoding narrows back, rejecting values that would not fit.

use vstd::prelude::*;

pub mod bytes;
pub mod signed;
pub mod unsigned;

pub use signed::Signed;
pub use unsigned::Unsigned;

use vstd::arithmetic::power2::{
    lemma2_to64, lemma2_to64_rest, lemma_pow2_adds, lemma_pow2_strictly_increases, pow2,
};
use vstd::layout::unsigned_int_max_values;

use crate::bytes::lex_less;
use crate::signed::{
    lemma_signed_length_monotone, lemma_signed_order_preserving, lemma_signed_round_trip,
    signed_decoded, signed_encoding, signed_header_extra,
};
use crate::unsigned::{
    lemma_unsigned_length_monotone, lemma_unsigned_order_preserving, lemma_unsigned_round_trip,
    unsigned_decoded, unsigned_encoding, unsigned_header_extra,
};

verus! {

/// Failure conditions reported by the codec.
#[derive(Clone, Copy, Debug, PartialEq, Eq, Structural)]
pub enum Error {
    /// On encode, the value lies outside the range the format can carry;
    /// on decode, the decoded value does not fit the requested native width.
    OutOfRange,
    /// The input ends before the number of bytes announced in the header.
    Truncated,
    /// The header announces more payload bytes than the requested width
    /// could ever need.
    InvalidHeader,
}

/// Whether `v` is representable in the canonical codec chosen by `signed`.
pub open spec fn encodable(signed: bool, v: int) -> bool {
    if signed {
        -pow2(123) <= v < pow2(123)
    } else {
        0 <= v < pow2(124)
    }
}

/// The encoded bytes of `v` under the canonical codec chosen by `signed`.
pub open spec fn encoding(signed: bool, v: int) -> Seq<u8> {
    if signed {
        signed_encoding(v)
    } else {
        unsigned_encoding(v as nat)
    }
}

/// The payload count announced by the header byte of `s` under the codec
/// chosen by `signed`; one more than this many bytes make one value.
pub open spec fn header_extra(signed: bool, s: Seq<u8>) -> nat {
    if signed {
        signed_header_extra(s)
    } else {
        unsigned_header_extra(s)
    }
}

/// The value the front of `s` decodes to under the codec chosen by
/// `signed`, when `s` is long enough.
pub open spec fn decoded_value(signed: bool, s: Seq<u8>) -> int {
    if signed {
        signed_decoded(s)
    } else {
        unsigned_decoded(s) as int
    }
}

/// Encodes and decodes a type using a variable-length format.
///
/// The four spec functions fix, per implementing type, which canonical
/// codec is used, the byte width that bounds a decodable header, the
/// numeric value of an instance, and the set of values that fit the type.
/// The contracts of the three methods are stated once here, over those
/// functions, and hold for every implementation.
pub trait Variable: Sized {
    /// The numeric value this instance stands for.
    spec fn value(&self) -> int;

    /// Whether this type routes through the signed canonical codec.
    spec fn signed() -> bool;

    /// Byte width of the native type: a header that announces more
    /// payload bytes than this is rejected when decoding into this type.
    spec fn width() -> nat;

    /// Whether `v` is representable in this type.
    spec fn fits(v: int) -> bool;

    /// Encodes `self` into `destination`, returning the number of bytes
    /// written upon success.
    fn encode_variable(&self, destination: &mut Vec<u8>) -> (result: Result<usize, Error>)
        ensures
            encodable(Self::signed(), self.value()) ==> ({
                &&& result matches Ok(count) && count as nat == encoding(
                    Self::signed(),
                    self.value(),
                ).len()
                &&& final(destination)@ == old(destination)@ + encoding(
                    Self::signed(),
                    self.value(),
                )
            }),
            !encodable(Self::signed(), self.value()) ==> ({
                &&& result == Err::<usize, Error>(Error::OutOfRange)
                &&& final(destination)@ == old(destination)@
            }),
    ;

    /// Decodes a variable length value from the front of `source`.  Bytes
    /// beyond those the header announces are ignored.
    fn decode_variable(source: &[u8]) -> (result: Result<Self, Error>)
        ensures
            ({
                let s = source@;
                let sg = Self::signed();
                let w = Self::width();
                match result {
                    Ok(v) => {
                        &&& s.len() >= 1
                        &&& header_extra(sg, s) <= w
                        &&& s.len() >= header_extra(sg, s) + 1
                        &&& Self::fits(decoded_value(sg, s))
                        &&& v.value() == decoded_value(sg, s)
                    },
                    Err(Error::Truncated) => s.len() == 0 || (header_extra(sg, s) <= w && s.len()
                        < header_extra(sg, s) + 1),
                    Err(Error::InvalidHeader) => s.len() >= 1 && header_extra(sg, s) > w,
                    Err(Error::OutOfRange) => {
                        &&& header_extra(sg, s) <= w
                        &&& s.len() >= header_extra(sg, s) + 1
                        &&& !Self::fits(decoded_value(sg, s))
                    },
                }
            }),
    ;

    /// Encodes `self` into a new `Vec<u8>`.
    fn to_variable_vec(&self) -> (result: Result<Vec<u8>, Error>)
        ensures
            encodable(Self::signed(), self.value()) ==> (result matches Ok(bytes) && bytes@
                == encoding(Self::signed(), self.value())),
            !encodable(Self::signed(), self.value()) ==> result == Err::<Vec<u8>, Error>(
                Error::OutOfRange,
            ),
    {
        let mut output: Vec<u8> = Vec::new();
        let encoded = self.encode_variable(&mut output);
        proof {
            if encodable(Self::signed(), self.value()) {
                assert(Seq::<u8>::empty() + encoding(Self::signed(), self.value()) =~= encoding(
                    Self::signed(),
                    self.value(),
                ));
            }
        }
        match encoded {
            Ok(_) => Ok(output),
            Err(e) => Err(e),
        }
    }
}

/// Law: decoding an encoding returns the value.  For every representable
/// `v`, the encoding of `v` followed by arbitrary further bytes announces
/// exactly the encoded length and decodes back to `v`.
pub proof fn lemma_round_trip(signed: bool, v: int, rest: Seq<u8>)
    requires
        encodable(signed, v),
    ensures
        ({
            let s = encoding(signed, v) + rest;
            &&& encoding(signed, v).len() == header_extra(signed, s) + 1
            &&& s.len() >= header_extra(signed, s) + 1
            &&& decoded_value(signed, s) == v
        }),
{
    if signed {
        lemma_signed_round_trip(v, rest);
    } else {
        lemma_unsigned_round_trip(v as nat, rest);
    }
}

/// Law: order preservation.  For representable `a` and `b`, `a < b` holds
/// if and only if the encoding of `a` is byte-wise lexicographically less
/// than the encoding of `b`.
pub proof fn lemma_order_preserving(signed: bool, a: int, b: int)
    requires
        encodable(signed, a),
        encodable(signed, b),
    ensures
        a < b <==> lex_less(encoding(signed, a), encoding(signed, b)),
{
    if signed {
        lemma_signed_order_preserving(a, b);
    } else {
        lemma_unsigned_order_preserving(a as nat, b as nat);
    }
}

/// Law: minimality.  Within one sign, the encoded length never shrinks as
/// the magnitude grows.
pub proof fn lemma_length_monotone(signed: bool, a: int, b: int)
    requires
        encodable(signed, b),
        0 <= a <= b || (signed && b <= a < 0),
    ensures
        encoding(signed, a).len() <= encoding(signed, b).len(),
{
    if signed {
        lemma_signed_length_monotone(a, b);
    } else {
        lemma_unsigned_length_monotone(a as nat, b as nat);
    }
}

/// Range facts about the native integer types against the two canonical
/// ranges `0 .. 2^124` and `-2^123 .. 2^123`.
proof fn lemma_native_ranges()
    ensures
        (u8::MAX as nat) < pow2(124),
        (u16::MAX as nat) < pow2(124),
        (u32::MAX as nat) < pow2(124),
        (u64::MAX as nat) < pow2(124),
        (usize::MAX as nat) < pow2(124),
        pow2(124) <= (u128::MAX as nat) + 1,
        (i8::MAX as int) < pow2(123),
        (i16::MAX as int) < pow2(123),
        (i32::MAX as int) < pow2(123),
        (i64::MAX as int) < pow2(123),
        (isize::MAX as int) < pow2(123),
        -pow2(123) <= (i8::MIN as int),
        -pow2(123) <= (i16::MIN as int),
        -pow2(123) <= (i32::MIN as int),
        -pow2(123) <= (i64::MIN as int),
        -pow2(123) <= (isize::MIN as int),
        pow2(123) < (i128::MAX as int),
{
    lemma2_to64();
    lemma2_to64_rest();
    unsigned_int_max_values();
    lemma_pow2_adds(5, 123);
    lemma_pow2_strictly_increases(63, 123);
    lemma_pow2_strictly_increases(64, 123);
    lemma_pow2_strictly_increases(64, 124);
    lemma_pow2_strictly_increases(124, 128);
}

impl Variable for Unsigned {
    open spec fn value(&self) -> int {
        self.0 as int
    }

    open spec fn signed() -> bool {
        false
    }

    open spec fn width() -> nat {
        16
    }

    open spec fn fits(v: int) -> bool {
        0 <= v < pow2(124)
    }

    fn encode_variable(&self, destination: &mut Vec<u8>) -> (result: Result<usize, Error>) {
        Unsigned::encode_be_bytes(self.0, destination)
    }

    fn decode_variable(source: &[u8]) -> (result: Result<Self, Error>) {
        match Unsigned::decode_variable_bytes(source, 16) {
            Ok((value, _consumed)) => Ok(Unsigned(value)),
            Err(e) => Err(e),
        }
    }
}

impl Variable for Signed {
    open spec fn value(&self) -> int {
        self.0 as int
    }

    open spec fn signed() -> bool {
        true
    }

    open spec fn width() -> nat {
        16
    }

    open spec fn fits(v: int) -> bool {
        -pow2(123) <= v < pow2(123)
    }

    fn encode_variable(&self, destination: &mut Vec<u8>) -> (result: Result<usize, Error>) {
        Signed::encode_be_bytes(self.0, destination)
    }

    fn decode_variable(source: &[u8]) -> (result: Result<Self, Error>) {
        match Signed::decode_variable_bytes(source, 16) {
            Ok((value, _consumed)) => Ok(Signed(value)),
            Err(e) => Err(e),
        }
    }
}

impl Variable for u8 {
    open spec fn value(&self) -> int {
        *self as int
    }

    open spec fn signed() -> bool {
        false
    }

    open spec fn width() -> nat {
        1
    }

    open spec fn fits(v: int) -> bool {
        0 <= v <= u8::MAX as int
    }

    fn encode_variable(&self, destination: &mut Vec<u8>) -> (result: Result<usize, Error>) {
        proof {
            lemma_native_ranges();
        }
        Unsigned::encode_be_bytes(*self as u128, destination)
    }

    fn decode_variable(source: &[u8]) -> (result: Result<Self, Error>) {
        match Unsigned::decode_variable_bytes(source, 1) {
            Ok((value, _consumed)) => {
                if value <= u8::MAX as u128 {
                    Ok(value as u8)
                } else {
                    Err(Error::OutOfRange)
                }
            },
            Err(e) => Err(e),
        }
    }
}

impl Variable for u16 {
    open spec fn value(&self) -> int {
        *self as int
    }

    open spec fn signed() -> bool {
        false
    }

    open spec fn width() -> nat {
        2
    }

    open spec fn fits(v: int) -> bool {
        0 <= v <= u16::MAX as int
    }

    fn encode_variable(&self, destination: &mut Vec<u8>) -> (result: Result<usize, Error>) {
        proof {
            lemma_native_ranges();
        }
        Unsigned::encode_be_bytes(*self as u128, destination)
    }

    fn decode_variable(source: &[u8]) -> (result: Result<Self, Error>) {
        match Unsigned::decode_variable_bytes(source, 2) {
            Ok((value, _consumed)) => {
                if value <= u16::MAX as u128 {
                    Ok(value as u16)
                } else {
                    Err(Error::OutOfRange)
                }
            },
            Err(e) => Err(e),
        }
    }
}

impl Variable for u32 {
    open spec fn value(&self) -> int {
        *self as int
    }

    open spec fn signed() -> bool {
        false
    }

    open spec fn width() -> nat {
        4
    }

    open spec fn fits(v: int) -> bool {
        0 <= v <= u32::MAX as int
    }

    fn encode_variable(&self, destination: &mut Vec<u8>) -> (result: Result<usize, Error>) {
        proof {
            lemma_native_ranges();
        }
        Unsigned::encode_be_bytes(*self as u128, destination)
    }

    fn decode_variable(source: &[u8]) -> (result: Result<Self, Error>) {
        match Unsigned::decode_variable_bytes(source, 4) {
            Ok((value, _consumed)) => {
                if value <= u32::MAX as u128 {
                    Ok(value as u32)
                } else {
                    Err(Error::OutOfRange)
                }
            },
            Err(e) => Err(e),
        }
    }
}

impl Variable for u64 {
    open spec fn value(&self) -> int {
        *self as int
    }

    open spec fn signed() -> bool {
        false
    }

    open spec fn width() -> nat {
        8
    }

    open spec fn fits(v: int) -> bool {
        0 <= v <= u64::MAX as int
    }

    fn encode_variable(&self, destination: &mut Vec<u8>) -> (result: Result<usize, Error>) {
        proof {
            lemma_native_ranges();
        }
        Unsigned::encode_be_bytes(*self as u128, destination)
    }

    fn decode_variable(source: &[u8]) -> (result: Result<Self, Error>) {
        match Unsigned::decode_variable_bytes(source, 8) {
            Ok((value, _consumed)) => {
                if value <= u64::MAX as u128 {
                    Ok(value as u64)
                } else {
                    Err(Error::OutOfRange)
                }
            },
            Err(e) => Err(e),
        }
    }
}

impl Variable for u128 {
    open spec fn value(&self) -> int {
        *self as int
    }

    open spec fn signed() -> bool {
        false
    }

    open spec fn width() -> nat {
        16
    }

    open spec fn fits(v: int) -> bool {
        0 <= v <= u128::MAX as int
    }

    fn encode_variable(&self, destination: &mut Vec<u8>) -> (result: Result<usize, Error>) {
        Unsigned::encode_be_bytes(*self, destination)
    }

    fn decode_variable(source: &[u8]) -> (result: Result<Self, Error>) {
        match Unsigned::decode_variable_bytes(source, 16) {
            Ok((value, _consumed)) => {
                proof {
                    lemma_native_ranges();
                }
                Ok(value)
            },
            Err(e) => Err(e),
        }
    }
}

impl Variable for usize {
    open spec fn value(&self) -> int {
        *self as int
    }

    open spec fn signed() -> bool {
        false
    }

    open spec fn width() -> nat {
        vstd::layout::size_of::<usize>()
    }

    open spec fn fits(v: int) -> bool {
        0 <= v <= usize::MAX as int
    }

    fn encode_variable(&self, destination: &mut Vec<u8>) -> (result: Result<usize, Error>) {
        proof {
            lemma_native_ranges();
        }
        Unsigned::encode_be_bytes(*self as u128, destination)
    }

    fn decode_variable(source: &[u8]) -> (result: Result<Self, Error>) {
        let width: usize = core::mem::size_of::<usize>();
        match Unsigned::decode_variable_bytes(source, width) {
            Ok((value, _consumed)) => {
                if value <= usize::MAX as u128 {
                    Ok(value as usize)
                } else {
                    Err(Error::OutOfRange)
                }
            },
            Err(e) => Err(e),
        }
    }
}

impl Variable for i8 {
    open spec fn value(&self) -> int {
        *self as int
    }

    open spec fn signed() -> bool {
        true
    }

    open spec fn width() -> nat {
        1
    }

    open spec fn fits(v: int) -> bool {
        i8::MIN as int <= v <= i8::MAX as int
    }

    fn encode_variable(&self, destination: &mut Vec<u8>) -> (result: Result<usize, Error>) {
        proof {
            lemma_native_ranges();
        }
        Signed::encode_be_bytes(*self as i128, destination)
    }

    fn decode_variable(source: &[u8]) -> (result: Result<Self, Error>) {
        match Signed::decode_variable_bytes(source, 1) {
            Ok((value, _consumed)) => {
                if i8::MIN as i128 <= value && value <= i8::MAX as i128 {
                    Ok(value as i8)
                } else {
                    Err(Error::OutOfRange)
                }
            },
            Err(e) => Err(e),
        }
    }
}

impl Variable for i16 {
    open spec fn value(&self) -> int {
        *self as int
    }

    open spec fn signed() -> bool {
        true
    }

    open spec fn width() -> nat {
        2
    }

    open spec fn fits(v: int) -> bool {
        i16::MIN as int <= v <= i16::MAX as int
    }

    fn encode_variable(&self, destination: &mut Vec<u8>) -> (result: Result<usize, Error>) {
        proof {
            lemma_native_ranges();
        }
        Signed::encode_be_bytes(*self as i128, destination)
    }

    fn decode_variable(source: &[u8]) -> (result: Result<Self, Error>) {
        match Signed::decode_variable_bytes(source, 2) {
            Ok((value, _consumed)) => {
                if i16::MIN as i128 <= value && value <= i16::MAX as i128 {
                    Ok(value as i16)
                } else {
                    Err(Error::OutOfRange)
                }
            },
            Err(e) => Err(e),
        }
    }
}

impl Variable for i32 {
    open spec fn value(&self) -> int {
        *self as int
    }

    open spec fn signed() -> bool {
        true
    }

    open spec fn width() -> nat {
        4
    }

    open spec fn fits(v: int) -> bool {
        i32::MIN as int <= v <= i32::MAX as int
    }

    fn encode_variable(&self, destination: &mut Vec<u8>) -> (result: Result<usize, Error>) {
        proof {
            lemma_native_ranges();
        }
        Signed::encode_be_bytes(*self as i128, destination)
    }

    fn decode_variable(source: &[u8]) -> (result: Result<Self, Error>) {
        match Signed::decode_variable_bytes(source, 4) {
            Ok((value, _consumed)) => {
                if i32::MIN as i128 <= value && value <= i32::MAX as i128 {
                    Ok(value as i32)
                } else {
                    Err(Error::OutOfRange)
                }
            },
            Err(e) => Err(e),
        }
    }
}

impl Variable for i64 {
    open spec fn value(&self) -> int {
        *self as int
    }

    open spec fn signed() -> bool {
        true
    }

    open spec fn width() -> nat {
        8
    }

    open spec fn fits(v: int) -> bool {
        i64::MIN as int <= v <= i64::MAX as int
    }

    fn encode_variable(&self, destination: &mut Vec<u8>) -> (result: Result<usize, Error>) {
        proof {
            lemma_native_ranges();
        }
        Signed::encode_be_bytes(*self as i128, destination)
    }

    fn decode_variable(source: &[u8]) -> (result: Result<Self, Error>) {
        match Signed::decode_variable_bytes(source, 8) {
            Ok((value, _consumed)) => {
                if i64::MIN as i128 <= value && value <= i64::MAX as i128 {
                    Ok(value as i64)
                } else {
                    Err(Error::OutOfRange)
                }
            },
            Err(e) => Err(e),
        }
    }
}

impl Variable for i128 {
    open spec fn value(&self) -> int {
        *self as int
    }

    open spec fn signed() -> bool {
        true
    }

    open spec fn width() -> nat {
        16
    }

    open spec fn fits(v: int) -> bool {
        i128::MIN as int <= v <= i128::MAX as int
    }

    fn encode_variable(&self, destination: &mut Vec<u8>) -> (result: Result<usize, Error>) {
        Signed::encode_be_bytes(*self, destination)
    }

    fn decode_variable(source: &[u8]) -> (result: Result<Self, Error>) {
        match Signed::decode_variable_bytes(source, 16) {
            Ok((value, _consumed)) => {
                proof {
                    lemma_native_ranges();
                }
                Ok(value)
            },
            Err(e) => Err(e),
        }
    }
}

impl Variable for isize {
    open spec fn value(&self) -> int {
        *self as int
    }

    open spec fn signed() -> bool {
        true
    }

    open spec fn width() -> nat {
        vstd::layout::size_of::<isize>()
    }

    open spec fn fits(v: int) -> bool {
        isize::MIN as int <= v <= isize::MAX as int
    }

    fn encode_variable(&self, destination: &mut Vec<u8>) -> (result: Result<usize, Error>) {
        proof {
            lemma_native_ranges();
        }
        Signed::encode_be_bytes(*self as i128, destination)
    }

    fn decode_variable(source: &[u8]) -> (result: Result<Self, Error>) {
        let width: usize = core::mem::size_of::<isize>();
        match Signed::decode_variable_bytes(source, width) {
            Ok((value, _consumed)) => {
                if isize::MIN as i128 <= value && value <= isize::MAX as i128 {
                    Ok(value as isize)
                } else {
                    Err(Error::OutOfRange)
                }
            },
            Err(e) => Err(e),
        }
    }
}

} // verus!
