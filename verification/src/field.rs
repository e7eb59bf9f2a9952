//! 256-bit byte-string arithmetic for the two BN254 field moduli.
//!
//! Proof points, public inputs and hashes travel as 32-byte strings that
//! encode integers, big endian on the proof side and little endian on the
//! plaintext-hash side.  This module gives those strings an exact numeric
//! meaning and provides the reductions modulo the scalar-field and
//! base-field orders that the balance and binding checks need.

use vstd::prelude::*;

verus! {

use vstd::arithmetic::power2::{pow2, lemma_pow2_adds, lemma_pow2_pos, lemma2_to64};
use vstd::arithmetic::div_mod::{
    lemma_mod_breakdown, lemma_fundamental_div_mod_converse, lemma_small_mod,
    lemma_mod_sub_multiples_vanish, lemma_mod_bound,
};

/// Value of a byte string read as a big-endian integer.
pub open spec fn be_val(s: Seq<u8>) -> nat
    decreases s.len(),
{
    if s.len() == 0 {
        0
    } else {
        be_val(s.drop_last()) * 256 + s.last() as nat
    }
}

/// Value of a byte string read as a little-endian integer.
pub open spec fn le_val(s: Seq<u8>) -> nat
    decreases s.len(),
{
    if s.len() == 0 {
        0
    } else {
        le_val(s.subrange(1, s.len() as int)) * 256 + s[0] as nat
    }
}

/// A 256-bit integer as two 128-bit halves.
#[derive(Clone, Copy, PartialEq, Eq, Structural, Debug)]
pub struct U256 {
    pub hi: u128,
    pub lo: u128,
}

impl U256 {
    /// The integer this pair of halves stands for.
    pub open spec fn val(self) -> nat {
        self.hi as nat * pow2(128) + self.lo as nat
    }
}

/// High half of the BN254 scalar-field order.
pub const SCALAR_ORDER_HI: u128 = 0x30644e72e131a029b85045b68181585d;

/// Low half of the BN254 scalar-field order.
pub const SCALAR_ORDER_LO: u128 = 0x2833e84879b9709143e1f593f0000001;

/// High half of the BN254 base-field order.
pub const BASE_ORDER_HI: u128 = 0x30644e72e131a029b85045b68181585d;

/// Low half of the BN254 base-field order.
pub const BASE_ORDER_LO: u128 = 0x97816a916871ca8d3c208c16d87cfd47;

/// Order of the BN254 scalar field: commitments, nullifiers and public
/// amounts are residues of this prime.
pub open spec fn scalar_order() -> nat {
    SCALAR_ORDER_HI as nat * pow2(128) + SCALAR_ORDER_LO as nat
}

/// Order of the BN254 base field: the coordinates of G1 points are residues
/// of this prime.
pub open spec fn base_order() -> nat {
    BASE_ORDER_HI as nat * pow2(128) + BASE_ORDER_LO as nat
}

/// The half-split definitions above agree with the primes' decimal values.
pub proof fn lemma_field_order_values()
    ensures
        scalar_order() == 21888242871839275222246405745257275088548364400416034343698204186575808495617,
        base_order() == 21888242871839275222246405745257275088696311157297823662689037894645226208583,
{
    lemma_pow2_128();
}

/// pow2(128) as a literal, for bounds on u128 halves.
pub proof fn lemma_pow2_128()
    ensures
        pow2(128) == 0x100000000000000000000000000000000,
{
    lemma2_to64();
    lemma_pow2_adds(64, 64);
    lemma_pow2_adds(120, 8);
}

/// Splitting a big-endian string multiplies the front part by the weight of
/// the back part.
pub proof fn lemma_be_val_append(a: Seq<u8>, b: Seq<u8>)
    ensures
        be_val(a + b) == be_val(a) * pow2(8 * b.len()) + be_val(b),
    decreases b.len(),
{
    if b.len() == 0 {
        assert(a + b =~= a);
        lemma2_to64();
        assert(be_val(a) * pow2(0) + be_val(b) == be_val(a));
    } else {
        let b1 = b.drop_last();
        lemma_be_val_append(a, b1);
        assert((a + b).drop_last() =~= a + b1);
        lemma_pow2_adds(8 * b1.len(), 8);
        lemma2_to64();
        assert(be_val(a + b) == be_val(a + b1) * 256 + b.last());
        assert((be_val(a) * pow2(8 * b1.len()) + be_val(b1)) * 256
            == be_val(a) * (pow2(8 * b1.len()) * 256) + be_val(b1) * 256)
            by (nonlinear_arith);
    }
}

/// Splitting a little-endian string multiplies the back part by the weight
/// of the front part.
pub proof fn lemma_le_val_append(a: Seq<u8>, b: Seq<u8>)
    ensures
        le_val(a + b) == le_val(a) + pow2(8 * a.len()) * le_val(b),
    decreases a.len(),
{
    if a.len() == 0 {
        assert(a + b =~= b);
        lemma2_to64();
    } else {
        let a1 = a.subrange(1, a.len() as int);
        lemma_le_val_append(a1, b);
        assert((a + b).subrange(1, (a + b).len() as int) =~= a1 + b);
        lemma_pow2_adds(8 * a1.len(), 8);
        lemma2_to64();
        assert(le_val(a + b) == le_val(a1 + b) * 256 + a[0]);
        assert((le_val(a1) + pow2(8 * a1.len()) * le_val(b)) * 256
            == le_val(a1) * 256 + (pow2(8 * a1.len()) * 256) * le_val(b))
            by (nonlinear_arith);
    }
}

/// pow2 is monotone.
pub proof fn lemma_pow2_le(a: nat, b: nat)
    requires
        a <= b,
    ensures
        pow2(a) <= pow2(b),
{
    if a < b {
        vstd::arithmetic::power2::lemma_pow2_strictly_increases(a, b);
    }
}

/// Two half-pairs with the same value are the same pair.
pub proof fn lemma_u256_val_injective(a: U256, b: U256)
    requires
        a.val() == b.val(),
    ensures
        a == b,
{
    lemma_pow2_128();
    lemma_fundamental_div_mod_converse(a.val() as int, pow2(128) as int, a.hi as int, a.lo as int);
    lemma_fundamental_div_mod_converse(b.val() as int, pow2(128) as int, b.hi as int, b.lo as int);
}

/// Reads sixteen bytes of `bytes` starting at `start` as a big-endian
/// integer.
fn be_half(bytes: &[u8; 32], start: usize) -> (r: u128)
    requires
        start == 0 || start == 16,
    ensures
        r == be_val(bytes@.subrange(start as int, start + 16)),
{
    let mut acc: u128 = 0;
    let mut i: usize = 0;
    proof {
        lemma2_to64();
        assert(bytes@.subrange(start as int, start as int) =~= Seq::<u8>::empty());
    }
    while i < 16
        invariant
            i <= 16,
            start == 0 || start == 16,
            acc == be_val(bytes@.subrange(start as int, start + i)),
            acc < pow2(8 * i as nat),
        decreases 16 - i,
    {
        proof {
            lemma_pow2_adds(8 * i as nat, 8);
            lemma2_to64();
            lemma_pow2_128();
            lemma_pow2_le(8 * (i + 1) as nat, 128);
            assert(acc * 256 + 255 < pow2(8 * i as nat) * 256) by (nonlinear_arith)
                requires acc < pow2(8 * i as nat);
            assert(bytes@.subrange(start as int, start + i + 1).drop_last()
                =~= bytes@.subrange(start as int, start + i));
        }
        acc = acc * 256 + bytes[start + i] as u128;
        i += 1;
    }
    acc
}

/// Reads sixteen bytes of `bytes` starting at `start` as a little-endian
/// integer.
fn le_half(bytes: &[u8; 32], start: usize) -> (r: u128)
    requires
        start == 0 || start == 16,
    ensures
        r == le_val(bytes@.subrange(start as int, start + 16)),
{
    let mut acc: u128 = 0;
    let mut i: usize = 16;
    proof {
        lemma2_to64();
        assert(bytes@.subrange(start + 16, start + 16) =~= Seq::<u8>::empty());
    }
    while i > 0
        invariant
            i <= 16,
            start == 0 || start == 16,
            acc == le_val(bytes@.subrange(start + i, start + 16)),
            acc < pow2(8 * (16 - i) as nat),
        decreases i,
    {
        proof {
            lemma_pow2_adds(8 * (16 - i) as nat, 8);
            lemma2_to64();
            lemma_pow2_128();
            lemma_pow2_le(8 * (16 - i + 1) as nat, 128);
            assert(acc * 256 + 255 < pow2(8 * (16 - i) as nat) * 256) by (nonlinear_arith)
                requires acc < pow2(8 * (16 - i) as nat);
            let t = bytes@.subrange(start + i - 1, start + 16);
            assert(t.subrange(1, t.len() as int) =~= bytes@.subrange(start + i, start + 16));
        }
        acc = acc * 256 + bytes[start + i - 1] as u128;
        i -= 1;
    }
    acc
}

/// Reads 32 bytes as a big-endian 256-bit integer.
pub fn u256_from_be(bytes: &[u8; 32]) -> (r: U256)
    ensures
        r.val() == be_val(bytes@),
{
    let hi = be_half(bytes, 0);
    let lo = be_half(bytes, 16);
    proof {
        assert(bytes@ =~= bytes@.subrange(0, 16) + bytes@.subrange(16, 32));
        lemma_be_val_append(bytes@.subrange(0, 16), bytes@.subrange(16, 32));
    }
    U256 { hi, lo }
}

/// Reads 32 bytes as a little-endian 256-bit integer.
pub fn u256_from_le(bytes: &[u8; 32]) -> (r: U256)
    ensures
        r.val() == le_val(bytes@),
{
    let lo = le_half(bytes, 0);
    let hi = le_half(bytes, 16);
    proof {
        assert(bytes@ =~= bytes@.subrange(0, 16) + bytes@.subrange(16, 32));
        lemma_le_val_append(bytes@.subrange(0, 16), bytes@.subrange(16, 32));
        vstd::arithmetic::mul::lemma_mul_is_commutative(pow2(128) as int, hi as int);
    }
    U256 { hi, lo }
}

/// The unique 32-byte big-endian encoding of a value below pow2(256).
pub open spec fn be32_of(v: nat) -> Seq<u8> {
    Seq::new(32, |i: int| ((v / pow2((8 * (31 - i)) as nat)) % 256) as u8)
}

/// Each byte of a big-endian string is a base-256 digit of its value.
pub proof fn lemma_be_val_digit(s: Seq<u8>, i: int)
    requires
        0 <= i < s.len(),
    ensures
        s[i] as nat == (be_val(s) / pow2((8 * (s.len() - 1 - i)) as nat)) % 256,
    decreases s.len(),
{
    lemma2_to64();
    let s1 = s.drop_last();
    if i == s.len() - 1 {
        assert(be_val(s) == be_val(s1) * 256 + s.last());
        assert(be_val(s1) * 256 == 256 * be_val(s1)) by (nonlinear_arith);
        vstd::arithmetic::div_mod::lemma_mod_multiples_vanish(
            be_val(s1) as int,
            s.last() as int,
            256,
        );
        lemma_small_mod(s.last() as nat, 256);
        assert(be_val(s) / pow2(0) == be_val(s));
    } else {
        lemma_be_val_digit(s1, i);
        assert(be_val(s) == be_val(s1) * 256 + s.last());
        vstd::arithmetic::div_mod::lemma_fundamental_div_mod_converse_div(
            be_val(s) as int,
            256,
            be_val(s1) as int,
            s.last() as int,
        );
        assert(be_val(s) / 256 == be_val(s1));
        let k = (8 * (s.len() - 2 - i)) as nat;
        lemma_pow2_adds(8, k);
        lemma_pow2_pos(k);
        vstd::arithmetic::div_mod::lemma_div_denominator(be_val(s) as int, 256, pow2(k) as int);
        assert(be_val(s) / 256 / pow2(k) == be_val(s) / pow2(k + 8));
        assert((8 * (s.len() - 1 - i)) as nat == k + 8);
    }
}

/// A 32-byte big-endian string is exactly the encoding of its value.
pub proof fn lemma_be32_roundtrip(s: Seq<u8>)
    requires
        s.len() == 32,
    ensures
        be32_of(be_val(s)) == s,
{
    assert forall|i: int| 0 <= i < 32 implies be32_of(be_val(s))[i] == s[i] by {
        lemma_be_val_digit(s, i);
    }
    assert(be32_of(be_val(s)) =~= s);
}

/// Appends a byte slice.
pub fn push_bytes(out: &mut Vec<u8>, bytes: &[u8])
    ensures
        final(out)@ == old(out)@ + bytes@,
{
    let n = bytes.len();
    let mut k: usize = 0;
    while k < n
        invariant
            n == bytes@.len(),
            k <= n,
            out@ == old(out)@ + bytes@.subrange(0, k as int),
        decreases n - k,
    {
        proof {
            assert((old(out)@ + bytes@.subrange(0, k as int)).push(bytes@[k as int])
                =~= old(out)@ + bytes@.subrange(0, k + 1));
        }
        out.push(bytes[k]);
        k += 1;
    }
    proof {
        assert(bytes@.subrange(0, n as int) =~= bytes@);
    }
}

/// Whether a big-endian 32-byte string encodes a canonical scalar-field
/// element, i.e. its value is already below the field order.
pub open spec fn is_canonical_be(s: Seq<u8>) -> bool {
    be_val(s) < scalar_order()
}

/// 32 zero bytes.
pub open spec fn zero32() -> Seq<u8> {
    Seq::new(32, |i: int| 0u8)
}

/// Checks whether 32 bytes are all zero.
pub fn is_zero32(b: &[u8; 32]) -> (r: bool)
    ensures
        r == (b@ == zero32()),
{
    let mut i: usize = 0;
    while i < 32
        invariant
            i <= 32,
            forall|j: int| 0 <= j < i ==> b@[j] == 0,
        decreases 32 - i,
    {
        if b[i] != 0 {
            proof {
                assert(b@[i as int] != zero32()[i as int]);
            }
            return false;
        }
        i += 1;
    }
    proof {
        assert(b@ =~= zero32());
    }
    true
}

/// Checks whether a big-endian 32-byte string is a canonical scalar-field
/// element.
pub fn is_canonical32(b: &[u8; 32]) -> (r: bool)
    ensures
        r == is_canonical_be(b@),
{
    let v = u256_from_be(b);
    u256_lt(&v, &scalar_order_u256())
}

/// An all-zero byte string has value zero.
pub proof fn lemma_be_val_zero(s: Seq<u8>)
    requires
        forall|i: int| 0 <= i < s.len() ==> s[i] == 0,
    ensures
        be_val(s) == 0,
    decreases s.len(),
{
    if s.len() > 0 {
        lemma_be_val_zero(s.drop_last());
    }
}

/// Byte-wise equality of two 32-byte strings.
pub fn bytes32_eq(a: &[u8; 32], b: &[u8; 32]) -> (r: bool)
    ensures
        r == (a@ == b@),
{
    let mut i: usize = 0;
    while i < 32
        invariant
            i <= 32,
            forall|j: int| 0 <= j < i ==> a@[j] == b@[j],
        decreases 32 - i,
    {
        if a[i] != b[i] {
            return false;
        }
        i += 1;
    }
    proof {
        assert(a@ =~= b@);
    }
    true
}

/// Widens a 128-bit integer.
pub fn u256_from_u128(x: u128) -> (r: U256)
    ensures
        r.val() == x,
{
    U256 { hi: 0, lo: x }
}

/// Strict comparison of two 256-bit integers.
pub fn u256_lt(a: &U256, b: &U256) -> (r: bool)
    ensures
        r == (a.val() < b.val()),
{
    proof {
        lemma_pow2_128();
        assert(a.hi < b.hi ==> a.val() < b.val()) by (nonlinear_arith)
            requires a.lo < pow2(128), b.lo < pow2(128), pow2(128) > 0;
        assert(a.hi > b.hi ==> a.val() > b.val()) by (nonlinear_arith)
            requires a.lo < pow2(128), b.lo < pow2(128), pow2(128) > 0;
    }
    if a.hi != b.hi {
        a.hi < b.hi
    } else {
        a.lo < b.lo
    }
}

/// Equality of two 256-bit integers.
pub fn u256_eq(a: &U256, b: &U256) -> (r: bool)
    ensures
        r == (a.val() == b.val()),
{
    proof {
        if a.val() == b.val() {
            lemma_u256_val_injective(*a, *b);
        }
    }
    a.hi == b.hi && a.lo == b.lo
}

/// Subtraction of 256-bit integers; the minuend must not be smaller.
pub fn u256_sub(a: &U256, b: &U256) -> (r: U256)
    requires
        b.val() <= a.val(),
    ensures
        r.val() == a.val() - b.val(),
{
    proof {
        lemma_pow2_128();
        assert(a.hi >= b.hi) by (nonlinear_arith)
            requires
                a.hi * pow2(128) + a.lo >= b.hi * pow2(128) + b.lo,
                a.lo < pow2(128), b.lo < pow2(128), pow2(128) > 0;
        if a.lo < b.lo {
            assert(a.hi > b.hi) by (nonlinear_arith)
                requires
                    a.hi * pow2(128) + a.lo >= b.hi * pow2(128) + b.lo,
                    a.lo < b.lo, a.hi >= b.hi, pow2(128) > 0;
        }
    }
    if a.lo >= b.lo {
        U256 { hi: a.hi - b.hi, lo: a.lo - b.lo }
    } else {
        let lo = (u128::MAX - b.lo) + a.lo + 1;
        let hi = a.hi - b.hi - 1;
        proof {
            lemma_pow2_128();
            assert((hi as nat) * pow2(128) + lo == a.val() - b.val()) by (nonlinear_arith)
                requires
                    hi == a.hi - b.hi - 1,
                    lo == (u128::MAX - b.lo) + a.lo + 1,
                    u128::MAX == pow2(128) - 1,
                    a.lo < b.lo,
                    a.val() == a.hi * pow2(128) + a.lo,
                    b.val() == b.hi * pow2(128) + b.lo;
        }
        U256 { hi, lo }
    }
}

/// Remainder of a 256-bit integer modulo a positive 256-bit modulus.
pub fn u256_mod(a: &U256, m: &U256) -> (r: U256)
    requires
        m.val() > 0,
    ensures
        r.val() == a.val() % m.val(),
{
    let mut cur = *a;
    while !u256_lt(&cur, m)
        invariant
            m.val() > 0,
            cur.val() % m.val() == a.val() % m.val(),
        decreases cur.val(),
    {
        proof {
            lemma_mod_sub_multiples_vanish(cur.val() as int, m.val() as int);
        }
        cur = u256_sub(&cur, m);
    }
    proof {
        lemma_small_mod(cur.val(), m.val());
    }
    cur
}

/// The scalar-field order as a 256-bit integer.
pub fn scalar_order_u256() -> (r: U256)
    ensures
        r.val() == scalar_order(),
{
    U256 { hi: SCALAR_ORDER_HI, lo: SCALAR_ORDER_LO }
}

/// The base-field order as a 256-bit integer.
pub fn base_order_u256() -> (r: U256)
    ensures
        r.val() == base_order(),
{
    U256 { hi: BASE_ORDER_HI, lo: BASE_ORDER_LO }
}

/// Reduces a big-endian 32-byte string modulo the scalar-field order.
pub fn reduce_be_scalar(bytes: &[u8; 32]) -> (r: U256)
    ensures
        r.val() == be_val(bytes@) % scalar_order(),
{
    proof {
        lemma_field_order_values();
    }
    let v = u256_from_be(bytes);
    u256_mod(&v, &scalar_order_u256())
}

/// Reduces a little-endian 32-byte string modulo the scalar-field order.
pub fn reduce_le_scalar(bytes: &[u8; 32]) -> (r: U256)
    ensures
        r.val() == le_val(bytes@) % scalar_order(),
{
    proof {
        lemma_field_order_values();
    }
    let v = u256_from_le(bytes);
    u256_mod(&v, &scalar_order_u256())
}

/// Writes a 128-bit integer as sixteen big-endian bytes.
fn u128_to_be(x: u128) -> (r: [u8; 16])
    ensures
        be_val(r@) == x,
{
    let mut out: [u8; 16] = [0; 16];
    let mut rest: u128 = x;
    let mut i: usize = 16;
    proof {
        lemma2_to64();
        assert(out@.subrange(16, 16) =~= Seq::<u8>::empty());
    }
    while i > 0
        invariant
            i <= 16,
            out@.len() == 16,
            be_val(out@.subrange(i as int, 16)) == x as nat % pow2(8 * (16 - i) as nat),
            rest as nat == x as nat / pow2(8 * (16 - i) as nat),
        decreases i,
    {
        let ghost old_out = out@;
        let ghost k = 8 * (16 - i) as nat;
        let b = (rest % 256) as u8;
        out[i - 1] = b;
        rest = rest / 256;
        i -= 1;
        proof {
            lemma_pow2_adds(k, 8);
            lemma2_to64();
            lemma_pow2_pos(k);
            // byte pulled out and the shrunken rest, in terms of x
            assert(b == (x as nat / pow2(k)) % 256);
            vstd::arithmetic::div_mod::lemma_div_denominator(x as int, pow2(k) as int, 256);
            assert(rest as nat == x as nat / pow2(k + 8));
            // the freshly written suffix splits as [b] followed by the old suffix
            assert(out@.subrange(i + 1, 16) =~= old_out.subrange(i + 1, 16));
            assert(seq![b] + out@.subrange(i + 1, 16) =~= out@.subrange(i as int, 16));
            lemma_be_val_append(seq![b], out@.subrange(i + 1, 16));
            assert(seq![b].drop_last() =~= Seq::<u8>::empty());
            assert(be_val(Seq::<u8>::empty()) == 0);
            assert(be_val(seq![b]) == b);
            assert(pow2(8 * out@.subrange(i + 1, 16).len()) == pow2(k));
            // digit decomposition: x mod 2^(k+8) = (x/2^k mod 256) * 2^k + x mod 2^k
            lemma_mod_breakdown(x as int, pow2(k) as int, 256);
            assert(b * pow2(k) == pow2(k) * ((x as nat / pow2(k)) % 256)) by (nonlinear_arith)
                requires b == (x as nat / pow2(k)) % 256;
            assert(be_val(out@.subrange(i as int, 16)) == x as nat % pow2(k + 8));
        }
    }
    proof {
        lemma_pow2_128();
        lemma_small_mod(x as nat, pow2(128));
        assert(out@.subrange(0, 16) =~= out@);
    }
    out
}

/// Writes a 256-bit integer as 32 big-endian bytes.
pub fn u256_to_be(v: &U256) -> (r: [u8; 32])
    ensures
        be_val(r@) == v.val(),
{
    let hi = u128_to_be(v.hi);
    let lo = u128_to_be(v.lo);
    let mut out: [u8; 32] = [0; 32];
    let mut i: usize = 0;
    while i < 16
        invariant
            i <= 16,
            out@.len() == 32,
            out@.subrange(0, i as int) =~= hi@.subrange(0, i as int),
        decreases 16 - i,
    {
        let ghost old_out = out@;
        out[i] = hi[i];
        proof {
            assert(out@.subrange(0, i + 1) =~= hi@.subrange(0, i + 1));
        }
        i += 1;
    }
    proof {
        assert(hi@.subrange(0, 16) =~= hi@);
    }
    let mut j: usize = 0;
    while j < 16
        invariant
            j <= 16,
            out@.len() == 32,
            out@.subrange(0, 16) =~= hi@,
            out@.subrange(16, 16 + j as int) =~= lo@.subrange(0, j as int),
        decreases 16 - j,
    {
        let ghost old_out = out@;
        out[16 + j] = lo[j];
        proof {
            assert(out@.subrange(0, 16) =~= old_out.subrange(0, 16));
            assert(out@.subrange(16, 16 + j + 1) =~= lo@.subrange(0, j + 1));
        }
        j += 1;
    }
    proof {
        assert(out@ =~= out@.subrange(0, 16) + out@.subrange(16, 32));
        assert(out@.subrange(16, 32) =~= lo@);
        assert(lo@.subrange(0, 16) =~= lo@);
        lemma_be_val_append(hi@, lo@);
    }
    out
}

} // verus!
