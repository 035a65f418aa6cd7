//! Big-endian byte strings of bounded natural numbers, and the byte-wise
//! lexicographic order that both codecs preserve.
//!
//! An encoded value is, numerically, a header-and-magnitude number written
//! as a fixed-length big-endian byte string.  This module defines that
//! byte string ([`be_bytes`]), its value ([`be_val`]), the order
//! ([`lex_less`]), and the executable loops that write and read such
//! strings.

use vstd::prelude::*;
use vstd::arithmetic::power2::{
    pow2, lemma_pow2_adds, lemma_pow2_pos, lemma_pow2_strictly_increases, lemma2_to64,
};
use vstd::arithmetic::div_mod::{
    lemma_div_basics, lemma_div_denominator, lemma_mod_breakdown, lemma_small_mod,
    lemma_fundamental_div_mod, lemma_mod_bound, lemma_multiply_divide_lt,
};
use vstd::layout::unsigned_int_max_values;

verus! {

/// 256 raised to the `k`-th power: the number of distinct `k`-byte strings.
pub open spec fn pow256(k: nat) -> nat {
    pow2(8 * k)
}

pub proof fn lemma_pow256_zero()
    ensures
        pow256(0) == 1,
{
    lemma2_to64();
}

pub proof fn lemma_pow256_unfold(k: nat)
    requires
        1 <= k,
    ensures
        pow256(k) == 256 * pow256((k - 1) as nat),
{
    lemma_pow2_adds(8, 8 * ((k - 1) as nat));
    lemma2_to64();
}

pub proof fn lemma_pow256_pos(k: nat)
    ensures
        pow256(k) >= 1,
{
    lemma_pow2_pos(8 * k);
}

pub proof fn lemma_pow256_increases(j: nat, k: nat)
    requires
        j <= k,
    ensures
        pow256(j) <= pow256(k),
{
    if j < k {
        lemma_pow2_strictly_increases(8 * j, 8 * k);
    }
}

/// Every power of 256 up to the fifteenth fits a `u128` with room to spare.
pub proof fn lemma_pow256_fits_u128(k: nat)
    requires
        k <= 16,
    ensures
        pow256(k) <= pow2(128),
        u128::MAX as nat == pow2(128) - 1,
{
    lemma_pow256_increases(k, 16);
    unsigned_int_max_values();
}

/// The number `n`, reduced modulo `256^len`, written as `len` big-endian
/// bytes: most significant byte first.
pub open spec fn be_bytes(n: nat, len: nat) -> Seq<u8>
    decreases len,
{
    if len == 0 {
        Seq::empty()
    } else {
        be_bytes(n / 256, (len - 1) as nat).push((n % 256) as u8)
    }
}

pub proof fn lemma_be_bytes_len(n: nat, len: nat)
    ensures
        be_bytes(n, len).len() == len,
    decreases len,
{
    if len > 0 {
        lemma_be_bytes_len(n / 256, (len - 1) as nat);
    }
}

/// The value of a big-endian byte string.
pub open spec fn be_val(s: Seq<u8>) -> nat
    decreases s.len(),
{
    if s.len() == 0 {
        0
    } else {
        be_val(s.drop_last()) * 256 + (s.last() as nat)
    }
}

pub proof fn lemma_be_val_bound(s: Seq<u8>)
    ensures
        be_val(s) < pow256(s.len()),
    decreases s.len(),
{
    if s.len() == 0 {
        lemma_pow256_zero();
    } else {
        lemma_be_val_bound(s.drop_last());
        lemma_pow256_unfold(s.len());
    }
}

/// Reading back the bytes of `n` yields `n` reduced modulo `256^len`.
pub proof fn lemma_be_val_of_be_bytes(n: nat, len: nat)
    ensures
        be_val(be_bytes(n, len)) == n % pow256(len),
    decreases len,
{
    if len == 0 {
        lemma_pow256_zero();
    } else {
        let prev = be_bytes(n / 256, (len - 1) as nat);
        let b = (n % 256) as u8;
        assert(prev.push(b).drop_last() =~= prev);
        lemma_be_val_of_be_bytes(n / 256, (len - 1) as nat);
        lemma_pow256_unfold(len);
        lemma_pow256_pos((len - 1) as nat);
        lemma_mod_breakdown(n as int, 256, pow256((len - 1) as nat) as int);
    }
}

/// A big-endian string splits into its leading `a` bytes, which carry the
/// high part of the number, and its trailing `b` bytes, which carry the
/// remainder modulo `256^b`.
pub proof fn lemma_be_bytes_split(n: nat, a: nat, b: nat)
    ensures
        be_bytes(n, a + b) == be_bytes(n / pow256(b), a) + be_bytes(n % pow256(b), b),
    decreases b,
{
    if b == 0 {
        lemma_pow256_zero();
        lemma_div_basics(n as int);
        assert(n % 1 == 0) by {
            lemma_small_mod(0, 1);
            lemma_fundamental_div_mod(n as int, 1);
        }
        assert(be_bytes(n, a + 0) =~= be_bytes(n, a) + be_bytes(0, 0));
    } else {
        let p1 = pow256((b - 1) as nat);
        lemma_pow256_unfold(b);
        lemma_pow256_pos((b - 1) as nat);
        lemma_be_bytes_split(n / 256, a, (b - 1) as nat);
        lemma_div_denominator(n as int, 256, p1 as int);
        lemma_mod_breakdown(n as int, 256, p1 as int);
        // n % 256^b == 256 * ((n / 256) % 256^(b-1)) + n % 256, so the
        // trailing digit and the rest of the remainder fall out directly.
        let q = (n / 256) % p1;
        let r = n % 256;
        lemma_mod_bound(n as int, 256);
        assert((n % pow256(b)) / 256 == q && (n % pow256(b)) % 256 == r) by {
            vstd::arithmetic::div_mod::lemma_fundamental_div_mod_converse(
                (n % pow256(b)) as int, 256, q as int, r as int);
        }
        assert(be_bytes(n, a + b) =~= be_bytes(n / pow256(b), a) + be_bytes(n % pow256(b), b));
    }
}

/// The first byte of a big-endian string holds the high part of the number.
pub proof fn lemma_be_bytes_first(n: nat, len: nat)
    requires
        1 <= len,
        n < pow256(len),
    ensures
        be_bytes(n, len).len() == len,
        be_bytes(n, len).first() == n / pow256((len - 1) as nat),
        n / pow256((len - 1) as nat) < 256,
{
    let p = pow256((len - 1) as nat);
    lemma_be_bytes_len(n, len);
    lemma_pow256_pos((len - 1) as nat);
    lemma_pow256_unfold(len);
    lemma_be_bytes_split(n, 1, (len - 1) as nat);
    lemma_multiply_divide_lt(n as int, p as int, 256);
    lemma_be_bytes_len(n / p, 1);
    lemma_be_bytes_len(n % p, (len - 1) as nat);
    assert(be_bytes(n / p, 1) == be_bytes((n / p) / 256, 0).push(((n / p) % 256) as u8));
    lemma_small_mod(n / p, 256);
    assert(be_bytes(n, len).first() == be_bytes(n / p, 1)[0]);
}

/// Strict lexicographic order on byte strings, a proper prefix ordering
/// before anything it prefixes.
pub open spec fn lex_less(a: Seq<u8>, b: Seq<u8>) -> bool
    decreases a.len(),
{
    if b.len() == 0 {
        false
    } else if a.len() == 0 {
        true
    } else if a.first() < b.first() {
        true
    } else if a.first() > b.first() {
        false
    } else {
        lex_less(a.drop_first(), b.drop_first())
    }
}

pub proof fn lemma_lex_less_irrefl(s: Seq<u8>)
    ensures
        !lex_less(s, s),
    decreases s.len(),
{
    if s.len() > 0 {
        lemma_lex_less_irrefl(s.drop_first());
    }
}

pub proof fn lemma_lex_less_asym(a: Seq<u8>, b: Seq<u8>)
    requires
        lex_less(a, b),
    ensures
        !lex_less(b, a),
    decreases a.len(),
{
    if a.len() > 0 && b.len() > 0 && a.first() == b.first() {
        lemma_lex_less_asym(a.drop_first(), b.drop_first());
    }
}

/// Equal-length big-endian strings compare lexicographically exactly as
/// their values compare.
pub proof fn lemma_be_bytes_order(n: nat, m: nat, len: nat)
    requires
        n < m,
        m < pow256(len),
    ensures
        lex_less(be_bytes(n, len), be_bytes(m, len)),
    decreases len,
{
    lemma_pow256_zero();
    let p = pow256((len - 1) as nat);
    lemma_pow256_pos((len - 1) as nat);
    lemma_be_bytes_first(n, len);
    lemma_be_bytes_first(m, len);
    let a = be_bytes(n, len);
    let b = be_bytes(m, len);
    vstd::arithmetic::div_mod::lemma_div_is_ordered(n as int, m as int, p as int);
    if n / p < m / p {
        assert(lex_less(a, b));
    } else {
        // Equal leading bytes: the remainders keep the strict order.
        lemma_pow256_pos((len - 1) as nat);
        lemma_fundamental_div_mod(n as int, p as int);
        lemma_fundamental_div_mod(m as int, p as int);
        lemma_mod_bound(n as int, p as int);
        lemma_mod_bound(m as int, p as int);
        lemma_be_bytes_split(n, 1, (len - 1) as nat);
        lemma_be_bytes_split(m, 1, (len - 1) as nat);
        lemma_be_bytes_order(n % p, m % p, (len - 1) as nat);
        lemma_be_bytes_len(n / p, 1);
        lemma_be_bytes_len(m / p, 1);
        lemma_be_bytes_len(n % p, (len - 1) as nat);
        lemma_be_bytes_len(m % p, (len - 1) as nat);
        assert(a.drop_first() =~= be_bytes(n % p, (len - 1) as nat));
        assert(b.drop_first() =~= be_bytes(m % p, (len - 1) as nat));
        assert(lex_less(a, b));
    }
}

/// `256^k`, computed at run time.
pub fn exec_pow256(k: usize) -> (r: u128)
    requires
        k <= 15,
    ensures
        r as nat == pow256(k as nat),
{
    let mut r: u128 = 1;
    let mut i: usize = 0;
    proof {
        lemma_pow256_zero();
    }
    while i < k
        invariant
            i <= k,
            k <= 15,
            r as nat == pow256(i as nat),
        decreases k - i,
    {
        proof {
            lemma_pow256_unfold((i + 1) as nat);
            lemma_pow256_fits_u128((i + 1) as nat);
            lemma_pow2_strictly_increases(8 * ((i + 1) as nat), 128);
        }
        r = r * 256;
        i = i + 1;
    }
    r
}

/// Appends the `len`-byte big-endian form of `n` to `output`.
pub fn write_be(n: u128, len: usize, output: &mut Vec<u8>)
    requires
        len <= 16,
        (n as nat) < pow256(len as nat),
    ensures
        final(output)@ == old(output)@ + be_bytes(n as nat, len as nat),
{
    let mut i: usize = 0;
    proof {
        lemma_pow256_zero();
        assert(output@ =~= old(output)@ + be_bytes((n as nat) / pow256((len - i) as nat), 0));
    }
    while i < len
        invariant
            i <= len,
            len <= 16,
            (n as nat) < pow256(len as nat),
            output@ == old(output)@ + be_bytes((n as nat) / pow256((len - i) as nat), i as nat),
        decreases len - i,
    {
        let p = exec_pow256(len - 1 - i);
        proof {
            lemma_pow256_pos((len - 1 - i) as nat);
        }
        let byte: u8 = ((n / p) % 256) as u8;
        proof {
            let q = (n as nat) / pow256((len - 1 - i) as nat);
            lemma_pow256_unfold((len - i) as nat);
            lemma_div_denominator(n as int, pow256((len - 1 - i) as nat) as int, 256);
            assert(q / 256 == (n as nat) / pow256((len - i) as nat));
            // One more byte of `n` moves from the quotient to the string.
            assert(be_bytes(q, (i + 1) as nat) == be_bytes(q / 256, i as nat).push((q % 256) as u8));
            assert(old(output)@ + be_bytes(q, (i + 1) as nat) =~= (old(output)@ + be_bytes(
                q / 256,
                i as nat,
            )).push(byte));
        }
        output.push(byte);
        i = i + 1;
    }
    proof {
        lemma_pow256_zero();
        lemma_div_basics(n as int);
    }
}

/// Reads `count` payload bytes that follow the header byte of `source`,
/// extending the `high` bits that the header byte contributed.
pub fn read_be(source: &[u8], high: u8, count: usize) -> (r: u128)
    requires
        high < 16,
        count < source@.len(),
        count <= 15,
    ensures
        r as nat == (high as nat) * pow256(count as nat) + be_val(source@.subrange(1, count + 1)),
        (r as nat) < 16 * pow256(count as nat),
{
    let mut acc: u128 = high as u128;
    let mut i: usize = 0;
    proof {
        lemma_pow256_zero();
        assert(source@.subrange(1, 1).len() == 0);
    }
    while i < count
        invariant
            i <= count,
            count <= 15,
            count < source@.len(),
            high < 16,
            acc as nat == (high as nat) * pow256(i as nat) + be_val(source@.subrange(1, i + 1)),
            (acc as nat) < 16 * pow256(i as nat),
        decreases count - i,
    {
        let b = source[i + 1];
        proof {
            lemma_pow256_unfold((i + 1) as nat);
            lemma_pow256_increases((i + 1) as nat, 15);
            lemma_pow2_adds(4, 120);
            lemma2_to64();
            lemma_pow2_strictly_increases(124, 128);
            lemma_pow256_fits_u128(15);
            let t = source@.subrange(1, i + 2);
            assert(t.drop_last() =~= source@.subrange(1, i + 1));
            assert(t.last() == source@[i + 1]);
            assert((high as nat) * pow256((i + 1) as nat) == ((high as nat) * pow256(i as nat)) * 256)
                by (nonlinear_arith)
                requires pow256((i + 1) as nat) == 256 * pow256(i as nat),
            ;
            assert((16 * pow256(i as nat)) * 256 == 16 * pow256((i + 1) as nat)) by (nonlinear_arith)
                requires pow256((i + 1) as nat) == 256 * pow256(i as nat),
            ;
        }
        acc = acc * 256 + (b as u128);
        i = i + 1;
    }
    acc
}

} // verus!
