//! Byte order and masking.

use vstd::prelude::*;
use vstd::slice::{slice_subrange, slice_to_vec};

verus! {

/// The `k` lowest base-256 digits of `n`, most significant first.
pub open spec fn be_bytes(n: nat, k: nat) -> Seq<u8>
    decreases k,
{
    if k == 0 {
        seq![]
    } else {
        be_bytes(n / 256, (k - 1) as nat).push((n % 256) as u8)
    }
}

/// The number that `s` spells in base 256, most significant digit first.
pub open spec fn be_value(s: Seq<u8>) -> nat
    decreases s.len(),
{
    if s.len() == 0 {
        0
    } else {
        be_value(s.drop_last()) * 256 + s.last() as nat
    }
}

/// `256` to the power `k`.
pub open spec fn pow256(k: nat) -> nat
    decreases k,
{
    if k == 0 {
        1
    } else {
        256 * pow256((k - 1) as nat)
    }
}

/// The 32-bit pattern of a signed number.
pub open spec fn pattern32(i: int) -> nat {
    if i < 0 {
        (i + 0x1_0000_0000) as nat
    } else {
        i as nat
    }
}

/// The signed number of a 32-bit pattern.
pub open spec fn signed32(n: nat) -> int {
    if n >= 0x8000_0000 {
        n - 0x1_0000_0000
    } else {
        n as int
    }
}

/// The two bytes of a 16-bit sample, least significant first.
pub open spec fn le_sample(i: i16) -> Seq<u8> {
    let n: int = if i < 0 {
        i + 0x1_0000
    } else {
        i as int
    };
    seq![(n % 256) as u8, (n / 256) as u8]
}

/// Sample after sample, each least significant byte first.
pub open spec fn pcm(samples: Seq<i16>) -> Seq<u8>
    decreases samples.len(),
{
    if samples.len() == 0 {
        seq![]
    } else {
        pcm(samples.drop_last()) + le_sample(samples.last())
    }
}

/// Every byte combined with the byte of `mask` at its position modulo four.
pub open spec fn masked(data: Seq<u8>, mask: Seq<u8>) -> Seq<u8> {
    Seq::new(data.len(), |i: int| data[i] ^ mask[i % 4])
}

/// A number has as many bytes as are asked for.
pub proof fn lemma_be_bytes_len(n: nat, k: nat)
    ensures
        be_bytes(n, k).len() == k,
    decreases k,
{
    if k > 0 {
        lemma_be_bytes_len(n / 256, (k - 1) as nat);
    }
}

/// Bytes spell a number below the power of their count.
pub proof fn lemma_be_value_bound(s: Seq<u8>)
    ensures
        be_value(s) < pow256(s.len()),
    decreases s.len(),
{
    if s.len() > 0 {
        lemma_be_value_bound(s.drop_last());
    }
}

/// The powers that lengths and sequence numbers need.
pub proof fn lemma_pow256_values()
    ensures
        pow256(2) == 0x1_0000,
        pow256(4) == 0x1_0000_0000,
        pow256(8) == 0x1_0000_0000_0000_0000,
{
    reveal_with_fuel(pow256, 9);
}

/// Powers grow with their exponent.
pub proof fn lemma_pow256_monotonic(i: nat, j: nat)
    requires
        i <= j,
    ensures
        pow256(i) <= pow256(j),
    decreases j,
{
    if i < j {
        lemma_pow256_monotonic(i, (j - 1) as nat);
    }
}

/// A number below `256^k` is read back from its `k` bytes.
pub proof fn law_be_roundtrip(n: nat, k: nat)
    requires
        n < pow256(k),
    ensures
        be_bytes(n, k).len() == k,
        be_value(be_bytes(n, k)) == n,
    decreases k,
{
    lemma_be_bytes_len(n, k);
    if k > 0 {
        let m = (k - 1) as nat;
        assert(n / 256 < pow256(m)) by (nonlinear_arith)
            requires
                n < 256 * pow256(m),
        ;
        law_be_roundtrip(n / 256, m);
        assert(be_bytes(n, k).drop_last() =~= be_bytes(n / 256, m));
    }
}

/// Bytes are written back from the number that they spell.
pub proof fn law_be_inverse(s: Seq<u8>)
    ensures
        be_bytes(be_value(s), s.len()) == s,
    decreases s.len(),
{
    if s.len() > 0 {
        law_be_inverse(s.drop_last());
        let n = be_value(s);
        let hi = be_value(s.drop_last());
        assert(n / 256 == hi && n % 256 == s.last() as nat);
        assert(s.drop_last().push(s.last()) =~= s);
    } else {
        assert(be_bytes(0, 0) =~= s);
    }
}

/// A signed number is read back from its 32-bit pattern.
pub proof fn law_pattern32_roundtrip(i: i32)
    ensures
        pattern32(i as int) < pow256(4),
        signed32(pattern32(i as int)) == i,
{
    lemma_pow256_values();
}

/// Masking twice with the same mask gives the data back.
pub proof fn law_mask_involution(data: Seq<u8>, mask: Seq<u8>)
    ensures
        masked(masked(data, mask), mask) == data,
{
    assert forall|i: int| 0 <= i < data.len() implies #[trigger] masked(
        masked(data, mask),
        mask,
    )[i] == data[i] by {
        let a = data[i];
        let b = mask[i % 4];
        assert((a ^ b) ^ b == a) by (bit_vector);
    }
    assert(masked(masked(data, mask), mask) =~= data);
}

/// Samples take two bytes each, and sample `i` stands at byte `2 * i`.
pub proof fn law_pcm_layout(samples: Seq<i16>, i: int)
    requires
        0 <= i < samples.len(),
    ensures
        pcm(samples).len() == 2 * samples.len(),
        pcm(samples).subrange(2 * i, 2 * i + 2) == le_sample(samples[i]),
    decreases samples.len(),
{
    lemma_pcm_len(samples);
    lemma_pcm_len(samples.drop_last());
    if i < samples.len() - 1 {
        law_pcm_layout(samples.drop_last(), i);
        assert(pcm(samples).subrange(2 * i, 2 * i + 2) =~= pcm(samples.drop_last()).subrange(
            2 * i,
            2 * i + 2,
        ));
    } else {
        assert(pcm(samples).subrange(2 * i, 2 * i + 2) =~= le_sample(samples[i]));
    }
}

/// Different samples have different bytes.
pub proof fn law_le_sample_injective(a: i16, b: i16)
    requires
        le_sample(a) == le_sample(b),
    ensures
        a == b,
{
    assert(le_sample(a)[0] == le_sample(b)[0]);
    assert(le_sample(a)[1] == le_sample(b)[1]);
}

/// Samples take two bytes each.
pub proof fn lemma_pcm_len(samples: Seq<i16>)
    ensures
        pcm(samples).len() == 2 * samples.len(),
    decreases samples.len(),
{
    if samples.len() > 0 {
        lemma_pcm_len(samples.drop_last());
    }
}

/// The number in the two bytes at `at`, most significant first.
pub open spec fn number2(s: Seq<u8>, at: int) -> int {
    s[at] * 0x100 + s[at + 1]
}

/// The number in the four bytes at `at`, most significant first.
pub open spec fn number4(s: Seq<u8>, at: int) -> int {
    s[at] * 0x100_0000 + s[at + 1] * 0x1_0000 + s[at + 2] * 0x100 + s[at + 3]
}

/// The number in the eight bytes at `at`, most significant first.
pub open spec fn number8(s: Seq<u8>, at: int) -> int {
    number4(s, at) * 0x1_0000_0000 + number4(s, at + 4)
}

/// Two, four or eight bytes spell the number of their digits in base 256.
pub proof fn law_be_value_digits(s: Seq<u8>, at: int)
    requires
        0 <= at,
    ensures
        at + 2 <= s.len() ==> be_value(s.subrange(at, at + 2)) == number2(s, at),
        at + 4 <= s.len() ==> be_value(s.subrange(at, at + 4)) == number4(s, at),
        at + 8 <= s.len() ==> be_value(s.subrange(at, at + 8)) == number8(s, at),
{
    if at + 2 <= s.len() {
        lemma_be_value_step(s, at, 0);
        lemma_be_value_step(s, at, 1);
        assert(be_value(s.subrange(at, at)) == 0);
    }
    if at + 4 <= s.len() {
        lemma_be_value_step(s, at, 2);
        lemma_be_value_step(s, at, 3);
    }
    if at + 8 <= s.len() {
        lemma_be_value_step(s, at, 4);
        lemma_be_value_step(s, at, 5);
        lemma_be_value_step(s, at, 6);
        lemma_be_value_step(s, at, 7);
    }
}

proof fn lemma_be_value_step(s: Seq<u8>, at: int, k: int)
    requires
        0 <= at,
        0 <= k,
        at + k < s.len(),
    ensures
        be_value(s.subrange(at, at + k + 1)) == be_value(s.subrange(at, at + k)) * 256 + s[at + k],
{
    let t = s.subrange(at, at + k + 1);
    assert(t.drop_last() =~= s.subrange(at, at + k));
    assert(t.last() == s[at + k]);
}

proof fn lemma_be_bytes_value(n: nat, k: nat)
    ensures
        pow256(k) > 0,
        be_bytes(n, k).len() == k,
        be_value(be_bytes(n, k)) == n % pow256(k),
    decreases k,
{
    if k > 0 {
        let m = (k - 1) as nat;
        lemma_be_bytes_value(n / 256, m);
        assert(be_bytes(n, k).drop_last() =~= be_bytes(n / 256, m));
        vstd::arithmetic::div_mod::lemma_mod_breakdown(n as int, 256, pow256(m) as int);
    } else {
        assert(n % 1 == 0);
    }
}

/// The two, four or eight bytes of a number hold its digits in base 256, most
/// significant first; digits for which there is no room are left out.
pub proof fn law_be_bytes_digits(n: nat)
    ensures
        be_bytes(n, 2).len() == 2,
        number2(be_bytes(n, 2), 0) == n % 0x1_0000,
        be_bytes(n, 4).len() == 4,
        number4(be_bytes(n, 4), 0) == n % 0x1_0000_0000,
        be_bytes(n, 8).len() == 8,
        number8(be_bytes(n, 8), 0) == n % 0x1_0000_0000_0000_0000,
{
    lemma_pow256_values();
    lemma_be_bytes_value(n, 2);
    lemma_be_bytes_value(n, 4);
    lemma_be_bytes_value(n, 8);
    law_be_value_digits(be_bytes(n, 2), 0);
    law_be_value_digits(be_bytes(n, 4), 0);
    law_be_value_digits(be_bytes(n, 8), 0);
    assert(be_bytes(n, 2).subrange(0, 2) =~= be_bytes(n, 2));
    assert(be_bytes(n, 4).subrange(0, 4) =~= be_bytes(n, 4));
    assert(be_bytes(n, 8).subrange(0, 8) =~= be_bytes(n, 8));
}

/// Any number of bytes: one more byte makes the number that they spell 256 times
/// as large, plus the byte, and the bytes of a number spell what remains of it
/// by division by their power of 256.
pub proof fn law_be_any_length(s: Seq<u8>, b: u8, n: nat, k: nat)
    ensures
        be_value(Seq::<u8>::empty()) == 0,
        be_value(s.push(b)) == 256 * be_value(s) + b,
        pow256(0) == 1,
        pow256(k + 1) == 256 * pow256(k),
        be_bytes(n, k).len() == k,
        pow256(k) > 0,
        be_value(be_bytes(n, k)) == n % pow256(k),
{
    assert(s.push(b).drop_last() =~= s);
    lemma_be_bytes_value(n, k);
}

/// A signed number and its 32-bit pattern differ by 2^32 where the number is
/// negative, and not otherwise.
pub proof fn law_pattern32_is_twos_complement(i: i32, n: u32)
    ensures
        pattern32(i as int) == if i < 0 {
            i + 0x1_0000_0000
        } else {
            i as int
        },
        signed32(n as nat) == if n < 0x8000_0000 {
            n as int
        } else {
            n - 0x1_0000_0000
        },
{
}

/// Every byte is combined by exclusive or with one byte of the mask, the four of
/// which take turns from the first byte to the last.
pub proof fn law_masked_bytes(data: Seq<u8>, mask: Seq<u8>, i: int)
    requires
        0 <= i < data.len(),
    ensures
        masked(data, mask).len() == data.len(),
        masked(data, mask)[i] == data[i] ^ mask[i % 4],
{
}

/// Sample `i` is the 16-bit number in the bytes `2 * i` and `2 * i + 1`, the
/// lower byte first.
pub proof fn law_pcm_samples(samples: Seq<i16>, i: int)
    requires
        0 <= i < samples.len(),
    ensures
        pcm(samples).len() == 2 * samples.len(),
        pcm(samples)[2 * i] + 256 * pcm(samples)[2 * i + 1] == if samples[i] < 0 {
            samples[i] + 0x1_0000
        } else {
            samples[i] as int
        },
{
    law_pcm_layout(samples, i);
    let two = pcm(samples).subrange(2 * i, 2 * i + 2);
    assert(two[0] == pcm(samples)[2 * i] && two[1] == pcm(samples)[2 * i + 1]);
}

/// Appends the `k` lowest base-256 digits of `n`, most significant first.
pub fn push_be(out: &mut Vec<u8>, n: u64, k: u8)
    ensures
        final(out)@ == old(out)@ + be_bytes(n as nat, k as nat),
    decreases k,
{
    if k > 0 {
        push_be(out, n / 256, k - 1);
        out.push((n % 256) as u8);
    }
}

/// The number that up to eight bytes spell, most significant first.
pub fn read_be(s: &[u8]) -> (n: u64)
    requires
        s@.len() <= 8,
    ensures
        n == be_value(s@),
{
    let mut n: u64 = 0;
    let mut i: usize = 0;
    while i < s.len()
        invariant
            i <= s@.len() <= 8,
            n == be_value(s@.take(i as int)),
        decreases s@.len() - i,
    {
        proof {
            let t = s@.take(i + 1);
            assert(t.drop_last() =~= s@.take(i as int));
            lemma_be_value_bound(t);
            lemma_pow256_monotonic(t.len(), 8);
            lemma_pow256_values();
        }
        n = n * 256 + s[i] as u64;
        i = i + 1;
    }
    assert(s@.take(i as int) =~= s@);
    n
}

/// The 32-bit pattern of `i`.
pub fn to_pattern32(i: i32) -> (n: u32)
    ensures
        n == pattern32(i as int),
{
    if i < 0 {
        ((i as i64) + 0x1_0000_0000) as u32
    } else {
        i as u32
    }
}

/// The signed number of the 32-bit pattern `n`.
pub fn from_pattern32(n: u32) -> (i: i32)
    ensures
        i == signed32(n as nat),
{
    if n >= 0x8000_0000 {
        ((n as i64) - 0x1_0000_0000) as i32
    } else {
        n as i32
    }
}

/// The samples as bytes, each least significant byte first.
pub fn pcm_bytes(samples: &[i16]) -> (out: Vec<u8>)
    ensures
        out@ == pcm(samples@),
{
    let mut out: Vec<u8> = Vec::new();
    let mut i: usize = 0;
    while i < samples.len()
        invariant
            i <= samples@.len(),
            out@ == pcm(samples@.take(i as int)),
        decreases samples@.len() - i,
    {
        let s: i16 = samples[i];
        let n: i32 = if s < 0 {
            s as i32 + 0x1_0000
        } else {
            s as i32
        };
        out.push((n % 256) as u8);
        out.push((n / 256) as u8);
        proof {
            let t = samples@.take(i + 1);
            assert(t.drop_last() =~= samples@.take(i as int));
            assert(out@ =~= pcm(samples@.take(i as int)) + le_sample(s));
        }
        i = i + 1;
    }
    assert(samples@.take(i as int) =~= samples@);
    out
}

/// `data` combined with `mask`.
pub fn apply_mask(data: &[u8], mask: &[u8; 4]) -> (out: Vec<u8>)
    ensures
        out@ == masked(data@, mask@),
{
    let mut out: Vec<u8> = Vec::new();
    let mut i: usize = 0;
    while i < data.len()
        invariant
            i <= data@.len(),
            out@ == masked(data@, mask@).take(i as int),
        decreases data@.len() - i,
    {
        out.push(data[i] ^ mask[i % 4]);
        i = i + 1;
        assert(out@ =~= masked(data@, mask@).take(i as int));
    }
    assert(masked(data@, mask@).take(i as int) =~= masked(data@, mask@));
    out
}

/// A copy of `data` from `from` up to `to`.
pub fn copy_range(data: &[u8], from: usize, to: usize) -> (out: Vec<u8>)
    requires
        from <= to <= data@.len(),
    ensures
        out@ == data@.subrange(from as int, to as int),
{
    slice_to_vec(slice_subrange(data, from, to))
}

/// Appends `data`.
pub fn append_bytes(out: &mut Vec<u8>, data: &[u8])
    ensures
        final(out)@ == old(out)@ + data@,
{
    out.extend_from_slice(data);
    assert(out@ =~= old(out)@ + data@);
}

} // verus!
