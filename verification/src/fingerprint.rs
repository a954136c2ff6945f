//! Fingerprints as fixed-width bit vectors, and the Hamming distance between them.

use vstd::prelude::*;

verus! {

/// Bit `j` (0 is the least significant) of `byte`.
#[verifier::opaque]
pub open spec fn bit_of(byte: u8, j: int) -> bool {
    (byte >> (j as u8)) & 1u8 == 1u8
}

/// The first `n` bits held in `bytes`, least significant bit of each byte first.
pub open spec fn bits_of(bytes: Seq<u8>, n: nat) -> Seq<bool> {
    Seq::new(n, |k: int| bit_of(bytes[k / 8], k % 8))
}

/// Number of bytes that hold `n` bits.
pub open spec fn bytes_for(n: nat) -> nat {
    ((n + 7) / 8) as nat
}

/// Number of positions below `n` at which `a` and `b` differ.
pub open spec fn differing(a: Seq<bool>, b: Seq<bool>, n: int) -> nat
    decreases n,
{
    if n <= 0 {
        0
    } else {
        differing(a, b, n - 1) + if a[n - 1] != b[n - 1] { 1nat } else { 0nat }
    }
}

/// Length of the shorter of two bit vectors.
pub open spec fn common_len(a: Seq<bool>, b: Seq<bool>) -> int {
    if a.len() <= b.len() { a.len() as int } else { b.len() as int }
}

/// Hamming distance: the number of differing bit positions. Vectors of unequal
/// length are compared over the length of the shorter one.
pub open spec fn hamming(a: Seq<bool>, b: Seq<bool>) -> nat {
    differing(a, b, common_len(a, b))
}

/// 1 if bit `j` of `x` is set, else 0.
pub open spec fn bit_value(x: u8, j: int) -> nat {
    if bit_of(x, j) { 1 } else { 0 }
}

/// Number of set bits in `x`.
pub open spec fn popcount(x: u8) -> nat {
    bit_value(x, 0) + bit_value(x, 1) + bit_value(x, 2) + bit_value(x, 3)
        + bit_value(x, 4) + bit_value(x, 5) + bit_value(x, 6) + bit_value(x, 7)
}

/// Counts the set bits of a byte.
fn count_ones(x: u8) -> (r: u32)
    ensures
        r == popcount(x),
        r <= 8,
{
    let b0: u8 = x & 1;
    let b1: u8 = (x >> 1) & 1;
    let b2: u8 = (x >> 2) & 1;
    let b3: u8 = (x >> 3) & 1;
    let b4: u8 = (x >> 4) & 1;
    let b5: u8 = (x >> 5) & 1;
    let b6: u8 = (x >> 6) & 1;
    let b7: u8 = (x >> 7) & 1;
    assert(b0 <= 1 && b1 <= 1 && b2 <= 1 && b3 <= 1 && b4 <= 1 && b5 <= 1 && b6 <= 1 && b7 <= 1
        && b0 == (x >> 0u8) & 1) by (bit_vector)
        requires
            b0 == x & 1,
            b1 == (x >> 1) & 1,
            b2 == (x >> 2) & 1,
            b3 == (x >> 3) & 1,
            b4 == (x >> 4) & 1,
            b5 == (x >> 5) & 1,
            b6 == (x >> 6) & 1,
            b7 == (x >> 7) & 1,
    ;
    proof {
        reveal(bit_of);
    }
    let sum: u8 = b0 + b1 + b2 + b3 + b4 + b5 + b6 + b7;
    sum as u32
}

/// Bit `j` of `x ^ y` is set exactly where `x` and `y` differ in bit `j`.
proof fn lemma_xor_bit(x: u8, y: u8, j: int)
    requires
        0 <= j < 8,
    ensures
        bit_of(x ^ y, j) == (bit_of(x, j) != bit_of(y, j)),
{
    reveal(bit_of);
    let s: u8 = j as u8;
    assert(s < 8 ==> ((((x ^ y) >> s) & 1u8 == 1u8) == (((x >> s) & 1u8 == 1u8) != ((y >> s) & 1u8
        == 1u8)))) by (bit_vector);
}

/// Masking with the low `r` bits keeps those bits and clears the others.
proof fn lemma_mask_bit(x: u8, r: u8, j: int)
    requires
        0 < r < 8,
        0 <= j < 8,
    ensures
        bit_of(x & (((1u8 << r) - 1) as u8), j) == (j < r && bit_of(x, j)),
{
    reveal(bit_of);
    let s: u8 = j as u8;
    assert(0 < r < 8 && s < 8 ==> (((x & (((1u8 << r) - 1) as u8)) >> s) & 1u8 == 1u8) == (s < r
        && (x >> s) & 1u8 == 1u8)) by (bit_vector);
}

/// One more position adds one to the count where the vectors differ there.
proof fn lemma_differing_step(a: Seq<bool>, b: Seq<bool>, n: int)
    requires
        0 <= n,
    ensures
        differing(a, b, n + 1) == differing(a, b, n) + if a[n] != b[n] { 1nat } else { 0nat },
{
}

/// Position `base + j` of the vectors holds bit `j` of the bytes `x` and `y`.
spec fn byte_at(a: Seq<bool>, b: Seq<bool>, x: u8, y: u8, base: int, j: int) -> bool {
    a[base + j] == bit_of(x, j) && b[base + j] == bit_of(y, j)
}

/// The contribution of position `base + j`, read from the bits of `d`.
proof fn lemma_position(a: Seq<bool>, b: Seq<bool>, x: u8, y: u8, d: u8, base: int, j: int)
    requires
        0 <= base,
        0 <= j < 8,
        byte_at(a, b, x, y, base, j),
        bit_of(d, j) == (bit_of(x, j) != bit_of(y, j)),
    ensures
        differing(a, b, base + j + 1) == differing(a, b, base + j) + bit_value(d, j),
{
    lemma_differing_step(a, b, base + j);
}

/// One whole byte adds its eight positions to the count.
proof fn lemma_differing_byte(a: Seq<bool>, b: Seq<bool>, x: u8, y: u8, base: int)
    requires
        0 <= base,
        forall|j: int| 0 <= j < 8 ==> byte_at(a, b, x, y, base, j),
    ensures
        differing(a, b, base + 8) == differing(a, b, base) + popcount(x ^ y),
{
    let d: u8 = x ^ y;
    assert forall|j: int| 0 <= j < 8 implies differing(a, b, base + j + 1) == differing(
        a,
        b,
        base + j,
    ) + #[trigger] bit_value(d, j) by {
        lemma_xor_bit(x, y, j);
        assert(byte_at(a, b, x, y, base, j));
        lemma_position(a, b, x, y, d, base, j);
    }
    let c0 = bit_value(d, 0);
    let c1 = bit_value(d, 1);
    let c2 = bit_value(d, 2);
    let c3 = bit_value(d, 3);
    let c4 = bit_value(d, 4);
    let c5 = bit_value(d, 5);
    let c6 = bit_value(d, 6);
    let c7 = bit_value(d, 7);
    assert(differing(a, b, base + 1) == differing(a, b, base) + c0);
    assert(differing(a, b, base + 2) == differing(a, b, base + 1) + c1);
    assert(differing(a, b, base + 3) == differing(a, b, base + 2) + c2);
    assert(differing(a, b, base + 4) == differing(a, b, base + 3) + c3);
    assert(differing(a, b, base + 5) == differing(a, b, base + 4) + c4);
    assert(differing(a, b, base + 6) == differing(a, b, base + 5) + c5);
    assert(differing(a, b, base + 7) == differing(a, b, base + 6) + c6);
    assert(differing(a, b, base + 8) == differing(a, b, base + 7) + c7);
}

/// The contribution of bit `j` of `d`, whose bits from `r` on are clear: that
/// of position `base + j` below `r`, and nothing from there on.
proof fn lemma_position_masked(a: Seq<bool>, b: Seq<bool>, x: u8, y: u8, d: u8, base: int, r: int, j: int)
    requires
        0 <= base,
        0 <= j < 8,
        0 < r < 8,
        j < r ==> byte_at(a, b, x, y, base, j),
        bit_of(d, j) == (j < r && (bit_of(x, j) != bit_of(y, j))),
    ensures
        differing(a, b, if j < r { base + j + 1 } else { base + r }) == differing(
            a,
            b,
            if j < r { base + j } else { base + r },
        ) + bit_value(d, j),
{
    if j < r {
        lemma_differing_step(a, b, base + j);
    }
}

/// A last, partial byte adds its low `r` positions to the count.
proof fn lemma_differing_tail(a: Seq<bool>, b: Seq<bool>, x: u8, y: u8, base: int, r: u8)
    requires
        0 <= base,
        0 < r < 8,
        forall|j: int| 0 <= j < r ==> byte_at(a, b, x, y, base, j),
    ensures
        differing(a, b, base + r) == differing(a, b, base) + popcount(
            (x ^ y) & (((1u8 << r) - 1) as u8),
        ),
{
    let d: u8 = (x ^ y) & (((1u8 << r) - 1) as u8);
    let e = base + r;
    assert forall|j: int| 0 <= j < 8 implies differing(
        a,
        b,
        if j < r { base + j + 1 } else { e },
    ) == differing(a, b, if j < r { base + j } else { e }) + #[trigger] bit_value(d, j) by {
        lemma_xor_bit(x, y, j);
        lemma_mask_bit(x ^ y, r, j);
        if j < r {
            assert(byte_at(a, b, x, y, base, j));
        }
        lemma_position_masked(a, b, x, y, d, base, r as int, j);
    }
    let c0 = bit_value(d, 0);
    let c1 = bit_value(d, 1);
    let c2 = bit_value(d, 2);
    let c3 = bit_value(d, 3);
    let c4 = bit_value(d, 4);
    let c5 = bit_value(d, 5);
    let c6 = bit_value(d, 6);
    let c7 = bit_value(d, 7);
    assert(differing(a, b, base + 1) == differing(a, b, base) + c0);
    assert(differing(a, b, if 1 < r { base + 2 } else { e }) == differing(a, b, base + 1) + c1);
    assert(differing(a, b, if 2 < r { base + 3 } else { e }) == differing(a, b, if 2 < r { base + 2 } else { e }) + c2);
    assert(differing(a, b, if 3 < r { base + 4 } else { e }) == differing(a, b, if 3 < r { base + 3 } else { e }) + c3);
    assert(differing(a, b, if 4 < r { base + 5 } else { e }) == differing(a, b, if 4 < r { base + 4 } else { e }) + c4);
    assert(differing(a, b, if 5 < r { base + 6 } else { e }) == differing(a, b, if 5 < r { base + 5 } else { e }) + c5);
    assert(differing(a, b, if 6 < r { base + 7 } else { e }) == differing(a, b, if 6 < r { base + 6 } else { e }) + c6);
    assert(differing(a, b, e) == differing(a, b, e) + c7);
}

/// A perceptual hash: a bit vector of fixed width.
#[derive(Debug)]
pub struct Fingerprint {
    bit_len: u32,
    bytes: Vec<u8>,
}

impl View for Fingerprint {
    type V = Seq<bool>;

    closed spec fn view(&self) -> Seq<bool> {
        bits_of(self.bytes@, self.bit_len as nat)
    }
}

impl Fingerprint {
    #[verifier::type_invariant]
    spec fn holds_all_bits(self) -> bool {
        self.bytes@.len() == bytes_for(self.bit_len as nat)
    }

    /// The bytes that the fingerprint is kept in.
    pub closed spec fn bytes(&self) -> Seq<u8> {
        self.bytes@
    }

    /// Makes a fingerprint of `bit_len` bits from the bytes that hold them, the
    /// least significant bit of each byte first. Bits of the last byte beyond
    /// `bit_len` are not part of the fingerprint. `None` when the number of
    /// bytes does not fit `bit_len`.
    pub fn from_bytes(bit_len: u32, bytes: Vec<u8>) -> (r: Option<Fingerprint>)
        ensures
            r is Some <==> bytes@.len() == bytes_for(bit_len as nat),
            r matches Some(f) ==> f@ == bits_of(bytes@, bit_len as nat) && f.bytes() == bytes@,
    {
        let needed: usize = ((bit_len as u64 + 7) / 8) as usize;
        if bytes.len() == needed {
            Some(Fingerprint { bit_len, bytes })
        } else {
            None
        }
    }

    /// Makes a fingerprint from bytes already known to fit `bit_len`.
    pub(crate) fn from_exact_bytes(bit_len: u32, bytes: Vec<u8>) -> (r: Fingerprint)
        requires
            bytes@.len() == bytes_for(bit_len as nat),
        ensures
            r@ == bits_of(bytes@, bit_len as nat),
            r.bytes() == bytes@,
    {
        Fingerprint { bit_len, bytes }
    }

    /// Width of the fingerprint in bits.
    pub fn bit_len(&self) -> (r: u32)
        ensures
            r == self@.len(),
    {
        self.bit_len
    }

    /// The bytes that hold the bits, the least significant bit of each byte
    /// first.
    pub fn to_bytes(&self) -> (r: Vec<u8>)
        ensures
            r@ == self.bytes(),
            r@.len() == bytes_for(self@.len()),
            bits_of(r@, self@.len()) == self@,
    {
        proof {
            use_type_invariant(self);
        }
        let bytes = self.bytes.clone();
        assert(bytes@ =~= self.bytes@);
        bytes
    }

    /// Hamming distance to `other`: the number of bit positions at which the
    /// two fingerprints differ, between zero and the bit length.
    pub fn distance(&self, other: &Fingerprint) -> (r: u32)
        ensures
            r == hamming(self@, other@),
            r <= self@.len(),
            r <= other@.len(),
    {
        proof {
            use_type_invariant(self);
            use_type_invariant(other);
            lemma_hamming_range(self@, other@);
        }
        let n: u32 = if self.bit_len <= other.bit_len { self.bit_len } else { other.bit_len };
        let full: usize = (n / 8) as usize;
        let rest: u8 = (n % 8) as u8;
        let mut total: u32 = 0;
        let mut i: usize = 0;
        while i < full
            invariant
                i <= full,
                full == n / 8,
                n <= self.bit_len,
                n <= other.bit_len,
                self.bytes@.len() == bytes_for(self.bit_len as nat),
                other.bytes@.len() == bytes_for(other.bit_len as nat),
                total == differing(self@, other@, 8 * i),
            decreases full - i,
        {
            let x: u8 = self.bytes[i];
            let y: u8 = other.bytes[i];
            proof {
                lemma_differing_byte(self@, other@, x, y, 8 * i);
                lemma_differing_bound(self@, other@, 8 * i + 8);
            }
            total = total + count_ones(x ^ y);
            i = i + 1;
        }
        if rest > 0 {
            let x: u8 = self.bytes[full];
            let y: u8 = other.bytes[full];
            assert(0 < rest < 8 ==> (1u8 << rest) >= 1u8) by (bit_vector);
            let mask: u8 = (1u8 << rest) - 1;
            proof {
                lemma_differing_tail(self@, other@, x, y, 8 * full, rest);
                lemma_differing_bound(self@, other@, n as int);
            }
            total = total + count_ones((x ^ y) & mask);
        }
        total
    }
}

/// No more positions differ than were looked at.
pub proof fn lemma_differing_bound(a: Seq<bool>, b: Seq<bool>, n: int)
    ensures
        differing(a, b, n) <= if n <= 0 { 0 } else { n },
    decreases n,
{
    if n > 0 {
        lemma_differing_bound(a, b, n - 1);
    }
}


/// A bit vector is at distance zero from itself.
pub proof fn lemma_hamming_self(a: Seq<bool>)
    ensures
        hamming(a, a) == 0,
{
    lemma_differing_self(a, a.len() as int);
}

proof fn lemma_differing_self(a: Seq<bool>, n: int)
    ensures
        differing(a, a, n) == 0,
    decreases n,
{
    if n > 0 {
        lemma_differing_self(a, n - 1);
    }
}

/// The distance does not depend on the order of its arguments.
pub proof fn lemma_hamming_symmetric(a: Seq<bool>, b: Seq<bool>)
    ensures
        hamming(a, b) == hamming(b, a),
{
    lemma_differing_symmetric(a, b, common_len(a, b));
}

proof fn lemma_differing_symmetric(a: Seq<bool>, b: Seq<bool>, n: int)
    ensures
        differing(a, b, n) == differing(b, a, n),
    decreases n,
{
    if n > 0 {
        lemma_differing_symmetric(a, b, n - 1);
    }
}

/// The distance lies between zero and the bit length.
pub proof fn lemma_hamming_range(a: Seq<bool>, b: Seq<bool>)
    ensures
        0 <= hamming(a, b) <= a.len(),
        hamming(a, b) <= b.len(),
{
    lemma_differing_bound(a, b, common_len(a, b));
}

/// Two bit vectors of one length are at distance zero exactly when they are equal.
pub proof fn lemma_hamming_zero_iff_equal(a: Seq<bool>, b: Seq<bool>)
    requires
        a.len() == b.len(),
    ensures
        hamming(a, b) == 0 <==> a == b,
{
    if a == b {
        lemma_hamming_self(a);
    }
    if hamming(a, b) == 0 {
        lemma_differing_zero(a, b, a.len() as int);
        assert(a =~= b);
    }
}

proof fn lemma_differing_zero(a: Seq<bool>, b: Seq<bool>, n: int)
    requires
        differing(a, b, n) == 0,
    ensures
        forall|k: int| 0 <= k < n ==> a[k] == b[k],
    decreases n,
{
    if n > 0 {
        lemma_differing_zero(a, b, n - 1);
    }
}

} // verus!
