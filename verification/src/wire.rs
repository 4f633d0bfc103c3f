//! Big-endian integers as they travel in request and result buffers.

use vstd::prelude::*;

verus! {

/// The number that the bytes spell, most significant byte first.
pub open spec fn be_nat(bytes: Seq<u8>) -> nat
    decreases bytes.len(),
{
    if bytes.len() == 0 {
        0
    } else {
        be_nat(bytes.drop_last()) * 256 + bytes.last() as nat
    }
}

/// The low `n` bytes of `x`, most significant byte first.
pub open spec fn be_bytes(x: nat, n: nat) -> Seq<u8>
    decreases n,
{
    if n == 0 {
        Seq::empty()
    } else {
        be_bytes(x / 256, (n - 1) as nat).push((x % 256) as u8)
    }
}

/// `256` to the power `n`.
pub open spec fn pow256(n: nat) -> nat
    decreases n,
{
    if n == 0 {
        1
    } else {
        256 * pow256((n - 1) as nat)
    }
}

/// The two's-complement pattern of a 32-bit integer.
pub open spec fn pattern32(x: int) -> nat {
    (x % 0x1_0000_0000) as nat
}

/// The two's-complement pattern of a 64-bit integer.
pub open spec fn pattern64(x: int) -> nat {
    (x % 0x1_0000_0000_0000_0000) as nat
}

/// The 32-bit integer with the two's-complement pattern `u`.
pub open spec fn signed32(u: nat) -> int {
    if u < 0x8000_0000 {
        u as int
    } else {
        u - 0x1_0000_0000
    }
}

/// The 64-bit integer with the two's-complement pattern `u`.
pub open spec fn signed64(u: nat) -> int {
    if u < 0x8000_0000_0000_0000 {
        u as int
    } else {
        u - 0x1_0000_0000_0000_0000
    }
}

/// The four bytes of a 32-bit integer.
pub open spec fn i32_bytes(x: int) -> Seq<u8> {
    be_bytes(pattern32(x), 4)
}

/// The eight bytes of a 64-bit integer.
pub open spec fn i64_bytes(x: int) -> Seq<u8> {
    be_bytes(pattern64(x), 8)
}

pub proof fn lemma_be_bytes_len(x: nat, n: nat)
    ensures
        be_bytes(x, n).len() == n,
    decreases n,
{
    if n > 0 {
        lemma_be_bytes_len(x / 256, (n - 1) as nat);
    }
}

pub proof fn lemma_be_nat_bound(bytes: Seq<u8>)
    ensures
        be_nat(bytes) < pow256(bytes.len()),
    decreases bytes.len(),
{
    if bytes.len() > 0 {
        lemma_be_nat_bound(bytes.drop_last());
    }
}

/// Reading back the `n` bytes written for a number that fits in them gives the
/// number.
pub proof fn law_be_round_trip(x: nat, n: nat)
    requires
        x < pow256(n),
    ensures
        be_nat(be_bytes(x, n)) == x,
    decreases n,
{
    if n > 0 {
        law_be_round_trip(x / 256, (n - 1) as nat);
        assert(be_bytes(x, n).drop_last() =~= be_bytes(x / 256, (n - 1) as nat));
    }
}

pub proof fn lemma_pow256_values()
    ensures
        pow256(4) == 0x1_0000_0000,
        pow256(8) == 0x1_0000_0000_0000_0000,
        forall|n: nat| n < 8 ==> #[trigger] pow256(n) <= 0x100_0000_0000_0000,
{
    reveal_with_fuel(pow256, 9);
}

/// Writing a 32-bit integer and reading it back gives the same integer.
pub proof fn law_i32_round_trip(x: int)
    requires
        -0x8000_0000 <= x < 0x8000_0000,
    ensures
        signed32(be_nat(i32_bytes(x))) == x,
{
    lemma_pow256_values();
    law_be_round_trip(pattern32(x), 4);
}

/// Writing a 64-bit integer and reading it back gives the same integer.
pub proof fn law_i64_round_trip(x: int)
    requires
        -0x8000_0000_0000_0000 <= x < 0x8000_0000_0000_0000,
    ensures
        signed64(be_nat(i64_bytes(x))) == x,
{
    lemma_pow256_values();
    law_be_round_trip(pattern64(x), 8);
}

/// Appends the low `n` bytes of `x`, most significant first.
pub fn push_be(out: &mut Vec<u8>, x: u64, n: usize)
    ensures
        final(out)@ == old(out)@ + be_bytes(x as nat, n as nat),
    decreases n,
{
    if n > 0 {
        push_be(out, x / 256, n - 1);
        out.push((x % 256) as u8);
    }
    assert(out@ =~= old(out)@ + be_bytes(x as nat, n as nat));
}

/// Appends a 32-bit integer.
pub fn push_i32(out: &mut Vec<u8>, x: i32)
    ensures
        final(out)@ == old(out)@ + i32_bytes(x as int),
{
    let pattern: u64 = if x < 0 {
        (x as i64 + 0x1_0000_0000) as u64
    } else {
        x as u64
    };
    push_be(out, pattern, 4);
}

/// Appends a 64-bit integer.
pub fn push_i64(out: &mut Vec<u8>, x: i64)
    ensures
        final(out)@ == old(out)@ + i64_bytes(x as int),
{
    let pattern: u64 = if x < 0 {
        (x as i128 + 0x1_0000_0000_0000_0000) as u64
    } else {
        x as u64
    };
    push_be(out, pattern, 8);
}

/// The number that the bytes spell, most significant byte first.
pub fn read_be(bytes: &[u8]) -> (x: u64)
    requires
        bytes@.len() <= 8,
    ensures
        x == be_nat(bytes@),
{
    let mut x: u64 = 0;
    let mut i: usize = 0;
    proof {
        lemma_pow256_values();
    }
    while i < bytes.len()
        invariant
            i <= bytes@.len() <= 8,
            x == be_nat(bytes@.subrange(0, i as int)),
            forall|n: nat| n < 8 ==> #[trigger] pow256(n) <= 0x100_0000_0000_0000,
        decreases bytes@.len() - i,
    {
        proof {
            lemma_be_nat_bound(bytes@.subrange(0, i as int));
            assert(bytes@.subrange(0, i + 1).drop_last() =~= bytes@.subrange(0, i as int));
        }
        x = x * 256 + bytes[i] as u64;
        i += 1;
    }
    assert(bytes@.subrange(0, i as int) =~= bytes@);
    x
}

/// The 32-bit integer that four bytes spell.
pub fn read_i32_be(bytes: &[u8]) -> (x: i32)
    requires
        bytes@.len() == 4,
    ensures
        x == signed32(be_nat(bytes@)),
{
    proof {
        lemma_pow256_values();
        lemma_be_nat_bound(bytes@);
    }
    let u: u64 = read_be(bytes);
    if u < 0x8000_0000 {
        u as i32
    } else {
        (u as i64 - 0x1_0000_0000) as i32
    }
}

/// The 64-bit integer that eight bytes spell.
pub fn read_i64_be(bytes: &[u8]) -> (x: i64)
    requires
        bytes@.len() == 8,
    ensures
        x == signed64(be_nat(bytes@)),
{
    let u: u64 = read_be(bytes);
    if u < 0x8000_0000_0000_0000 {
        u as i64
    } else {
        (u as i128 - 0x1_0000_0000_0000_0000) as i64
    }
}

/// Bytes spell a number with the most significant byte first: those in front
/// count 256 times for every byte behind them.
pub proof fn law_most_significant_byte_first(a: Seq<u8>, b: Seq<u8>)
    ensures
        be_nat(a + b) == be_nat(a) * pow256(b.len()) + be_nat(b),
        a.len() == 1 ==> be_nat(a) == a[0],
    decreases b.len(),
{
    if a.len() == 1 {
        assert(a.drop_last() =~= Seq::empty());
        assert(be_nat(a.drop_last()) == 0);
    }
    if b.len() == 0 {
        assert(a + b =~= a);
        assert(pow256(0) == 1);
        assert(be_nat(a) * 1 == be_nat(a));
    } else {
        law_most_significant_byte_first(a, b.drop_last());
        assert((a + b).drop_last() =~= a + b.drop_last());
        assert((a + b).last() == b.last());
        assert(pow256(b.len()) == 256 * pow256((b.len() - 1) as nat));
        let x = be_nat(a);
        let p = pow256((b.len() - 1) as nat);
        let y = be_nat(b.drop_last());
        let z = b.last() as nat;
        assert(be_nat(a + b.drop_last()) == x * p + y);
        assert((x * p + y) * 256 + z == x * (256 * p) + (y * 256 + z)) by (nonlinear_arith);
    }
}

/// The first byte written is the most significant one.
pub proof fn law_first_byte_is_most_significant(x: nat, n: nat)
    requires
        n > 0,
        x < pow256(n),
    ensures
        be_bytes(x, n)[0] == x / pow256((n - 1) as nat),
    decreases n,
{
    lemma_be_bytes_len(x / 256, (n - 1) as nat);
    if n == 1 {
        assert(pow256(0) == 1);
        assert(pow256(1) == 256 * pow256(0));
    } else {
        let p = pow256((n - 2) as nat);
        assert(pow256((n - 1) as nat) == 256 * p);
        assert(pow256(n) == 256 * pow256((n - 1) as nat));
        assert(be_bytes(x, n)[0] == be_bytes(x / 256, (n - 1) as nat)[0]);
        law_first_byte_is_most_significant(x / 256, (n - 1) as nat);
        lemma_pow256_positive((n - 2) as nat);
        assert((x / 256) / p == x / (256 * p)) by (nonlinear_arith)
            requires
                p > 0,
        ;
    }
}

proof fn lemma_pow256_positive(n: nat)
    ensures
        pow256(n) > 0,
    decreases n,
{
    if n > 0 {
        lemma_pow256_positive((n - 1) as nat);
    }
}

/// A pattern and its number agree up to whole turns of the range, and the number
/// lies in the range of its width.
pub proof fn law_twos_complement(u: nat)
    ensures
        u < 0x1_0000_0000 ==> -0x8000_0000 <= signed32(u) < 0x8000_0000 && (signed32(u) == u
            || signed32(u) == u - 0x1_0000_0000),
        u < 0x1_0000_0000_0000_0000 ==> -0x8000_0000_0000_0000 <= signed64(u)
            < 0x8000_0000_0000_0000 && (signed64(u) == u || signed64(u) == u
            - 0x1_0000_0000_0000_0000),
{
}

} // verus!
