use vstd::prelude::*;
use crate::common::endian::be16;

verus! {

/// The sum of the first `k` big-endian 16-bit words of `s`.
pub open spec fn pair_sum(s: Seq<u8>, k: nat) -> nat
    decreases k,
{
    if k == 0 {
        0
    } else {
        pair_sum(s, (k - 1) as nat) + be16(s[2 * k - 2], s[2 * k - 1])
    }
}

/// The sum of the big-endian 16-bit words of `s`, an odd last byte counting as the high byte
/// of a word.
pub open spec fn word_sum(s: Seq<u8>) -> nat {
    pair_sum(s, s.len() / 2) + if s.len() % 2 == 1 {
        s.last() as nat * 256
    } else {
        0
    }
}

pub proof fn lemma_fold_decreases(x: nat)
    requires
        x >= 65536,
    ensures
        x % 65536 + x / 65536 < x,
{
    vstd::arithmetic::div_mod::lemma_fundamental_div_mod(x as int, 65536);
    let q = x / 65536;
    assert(q >= 1);
    assert(x == 65536 * q + x % 65536);
}

/// End-around carry: add the upper half into the lower half until the value fits in 16 bits.
pub open spec fn fold16(x: nat) -> nat
    decreases x,
{
    if x < 65536 {
        x
    } else {
        proof {
            lemma_fold_decreases(x);
        }
        fold16(x % 65536 + x / 65536)
    }
}

/// The one's-complement sum of `s` as the word sum taken modulo 2^32 and folded to 16 bits.
pub open spec fn spec_ones_complement_sum(s: Seq<u8>) -> nat {
    fold16(word_sum(s) % 0x1_0000_0000)
}

pub proof fn lemma_fold16_bound(x: nat)
    ensures
        fold16(x) < 65536,
    decreases x,
{
    if x >= 65536 {
        lemma_fold_decreases(x);
        lemma_fold16_bound(x % 65536 + x / 65536);
    }
}

/// The 16-bit one's-complement sum of `data`, as the Internet checksum uses it.
pub fn ones_complement_sum(data: &[u8]) -> (r: u32)
    ensures
        r == spec_ones_complement_sum(data@),
        r < 65536,
{
    let n = data.len();
    let mut sum: u32 = 0;
    let mut i: usize = 0;
    while i + 1 < n
        invariant
            n == data@.len(),
            i % 2 == 0,
            i <= n,
            sum == pair_sum(data@, (i / 2) as nat) % 0x1_0000_0000,
        decreases n - i,
    {
        let w = (data[i] as u32) * 256 + (data[i + 1] as u32);
        let ghost k = (i / 2 + 1) as nat;
        assert(2 * k - 2 == i && 2 * k - 1 == i + 1);
        assert(pair_sum(data@, k) == pair_sum(data@, (k - 1) as nat) + w);
        let t: u64 = sum as u64 + w as u64;
        proof {
            vstd::arithmetic::div_mod::lemma_add_mod_noop(
                pair_sum(data@, (k - 1) as nat) as int,
                w as int,
                0x1_0000_0000,
            );
            vstd::arithmetic::div_mod::lemma_mod_twice(w as int, 0x1_0000_0000);
            vstd::arithmetic::div_mod::lemma_small_mod(w as nat, 0x1_0000_0000);
        }
        sum = (t % 0x1_0000_0000) as u32;
        i = i + 2;
    }
    assert(i / 2 == n / 2);
    if n % 2 == 1 {
        let last = data[n - 1];
        let t: u64 = sum as u64 + (last as u64) * 256;
        proof {
            vstd::arithmetic::div_mod::lemma_add_mod_noop(
                pair_sum(data@, (n / 2) as nat) as int,
                last as int * 256,
                0x1_0000_0000,
            );
            vstd::arithmetic::div_mod::lemma_small_mod((last as nat * 256) as nat, 0x1_0000_0000);
        }
        sum = (t % 0x1_0000_0000) as u32;
    }
    assert(sum == word_sum(data@) % 0x1_0000_0000);
    let ghost total = sum as nat;
    while (sum >> 16) != 0
        invariant
            fold16(sum as nat) == fold16(total),
        decreases sum,
    {
        let lo = sum & 0xffff;
        let hi = sum >> 16;
        assert(lo == sum % 65536 && hi == sum / 65536) by (bit_vector)
            requires
                lo == sum & 0xffff,
                hi == sum >> 16,
        ;
        assert(hi != 0);
        proof {
            lemma_fold_decreases(sum as nat);
        }
        sum = lo + hi;
    }
    assert(sum < 65536) by (bit_vector)
        requires
            (sum >> 16) == 0,
    ;
    sum
}

/// The Internet checksum: the one's complement of the one's-complement sum.
pub open spec fn spec_internet_checksum(s: Seq<u8>) -> nat {
    (65535 - spec_ones_complement_sum(s)) as nat
}

/// The Internet checksum (RFC 1071) of `data`.
pub fn internet_checksum(data: &[u8]) -> (r: u16)
    ensures
        r == spec_internet_checksum(data@),
{
    let s = ones_complement_sum(data);
    let x = s as u16;
    let r = !x;
    assert(r == 65535 - x) by (bit_vector)
        requires
            r == !x,
    ;
    r
}

/// One shift of the reflected CRC-32 register.
pub open spec fn crc_bit(c: u32) -> u32 {
    if c & 1 != 0 {
        (c >> 1) ^ 0xedb8_8320
    } else {
        c >> 1
    }
}

pub open spec fn crc_rounds(c: u32, n: nat) -> u32
    decreases n,
{
    if n == 0 {
        c
    } else {
        crc_bit(crc_rounds(c, (n - 1) as nat))
    }
}

/// The register after taking in one byte.
pub open spec fn crc_byte(c: u32, b: u8) -> u32 {
    crc_rounds(c ^ (b as u32), 8)
}

/// The register after taking in the bytes of `s`, starting from `c`.
pub open spec fn crc_update(c: u32, s: Seq<u8>) -> u32
    decreases s.len(),
{
    if s.len() == 0 {
        c
    } else {
        crc_byte(crc_update(c, s.drop_last()), s.last())
    }
}

/// CRC-32 (IEEE 802.3, reflected polynomial `0xedb88320`).
pub open spec fn spec_crc32(s: Seq<u8>) -> u32 {
    !crc_update(0xffff_ffff, s)
}

/// CRC-32 (IEEE) of `data`.
pub fn crc32_ieee(data: &[u8]) -> (r: u32)
    ensures
        r == spec_crc32(data@),
{
    let mut crc: u32 = 0xffff_ffff;
    let mut i: usize = 0;
    while i < data.len()
        invariant
            i <= data@.len(),
            crc == crc_update(0xffff_ffff, data@.take(i as int)),
        decreases data@.len() - i,
    {
        let byte = data[i];
        assert(data@.take(i + 1).drop_last() =~= data@.take(i as int));
        let start = crc ^ (byte as u32);
        crc = start;
        let mut j: u32 = 0;
        while j < 8
            invariant
                j <= 8,
                crc == crc_rounds(start, j as nat),
            decreases 8 - j,
        {
            if crc & 1 != 0 {
                crc = (crc >> 1) ^ 0xedb8_8320;
            } else {
                crc = crc >> 1;
            }
            j = j + 1;
        }
        i = i + 1;
    }
    assert(data@.take(data@.len() as int) =~= data@);
    !crc
}

proof fn lemma_fold16_mod(x: nat)
    ensures
        fold16(x) % 65535 == x % 65535,
        x > 0 ==> fold16(x) > 0,
    decreases x,
{
    if x >= 65536 {
        lemma_fold_decreases(x);
        let q = x / 65536;
        let r = x % 65536;
        lemma_fold16_mod(r + q);
        vstd::arithmetic::div_mod::lemma_fundamental_div_mod(x as int, 65536);
        assert(x == 65535 * q + (r + q));
        vstd::arithmetic::div_mod::lemma_mod_multiples_vanish(q as int, (r + q) as int, 65535);
    }
}

/// A sum whose fold is zero modulo 65535 folds to 65535, unless it is zero.
proof fn lemma_fold16_full(x: nat)
    requires
        x > 0,
        x % 65535 == 0,
    ensures
        fold16(x) == 65535,
{
    lemma_fold16_mod(x);
    lemma_fold16_bound(x);
    let f = fold16(x);
    assert(f % 65535 == 0);
    assert(0 < f < 65536);
    if f != 65535 {
        vstd::arithmetic::div_mod::lemma_small_mod(f, 65535);
    }
}

/// Words up to `k` of `s` with one word changed from zero to `v`.
proof fn lemma_pair_sum_set(s: Seq<u8>, t: Seq<u8>, p: int, v: nat, k: nat)
    requires
        0 <= p,
        p % 2 == 0,
        p + 1 < s.len(),
        t.len() == s.len(),
        s[p] == 0,
        s[p + 1] == 0,
        t[p] as nat * 256 + t[p + 1] as nat == v,
        forall|i: int| 0 <= i < s.len() && i != p && i != p + 1 ==> t[i] == s[i],
        2 * k <= s.len(),
    ensures
        pair_sum(t, k) == pair_sum(s, k) + if 2 * k > p {
            v
        } else {
            0
        },
    decreases k,
{
    if k > 0 {
        lemma_pair_sum_set(s, t, p, v, (k - 1) as nat);
        let i = 2 * k - 2;
        if i != p {
            assert(i != p + 1 && i + 1 != p && i + 1 != p + 1);
            assert(t[i] == s[i] && t[i + 1] == s[i + 1]);
        }
    }
}

/// Filling a zeroed, word-aligned checksum field with the checksum of the data makes the
/// one's-complement sum all ones, so the checksum of the result is zero: the check a
/// receiver makes. It holds while the word sum does not wrap around 32 bits.
pub proof fn law_checksum_verifies(s: Seq<u8>, p: int)
    requires
        0 <= p,
        p % 2 == 0,
        p + 1 < s.len(),
        s[p] == 0,
        s[p + 1] == 0,
        word_sum(s) + 65535 < 0x1_0000_0000,
    ensures
        ({
            let c = spec_internet_checksum(s);
            let t = s.update(p, (c / 256) as u8).update(p + 1, (c % 256) as u8);
            &&& spec_ones_complement_sum(t) == 65535
            &&& spec_internet_checksum(t) == 0
        }),
{
    let c = spec_internet_checksum(s);
    let t = s.update(p, (c / 256) as u8).update(p + 1, (c % 256) as u8);
    lemma_fold16_bound(word_sum(s) % 0x1_0000_0000);
    assert(c < 65536);
    assert(t[p] as nat * 256 + t[p + 1] as nat == c) by (nonlinear_arith)
        requires
            t[p] == (c / 256) as u8,
            t[p + 1] == (c % 256) as u8,
            c < 65536,
    ;
    lemma_pair_sum_set(s, t, p, c, s.len() / 2);
    assert(2 * (s.len() / 2) > p);
    if s.len() % 2 == 1 {
        assert(s.len() - 1 != p && s.len() - 1 != p + 1);
        assert(t.last() == s.last());
    }
    let w = word_sum(s);
    assert(word_sum(t) == w + c);
    vstd::arithmetic::div_mod::lemma_small_mod(w, 0x1_0000_0000);
    vstd::arithmetic::div_mod::lemma_small_mod(w + c, 0x1_0000_0000);
    let f = fold16(w);
    lemma_fold16_mod(w);
    assert(c == 65535 - f);
    assert((w + c) % 65535 == 0) by {
        vstd::arithmetic::div_mod::lemma_fundamental_div_mod(w as int, 65535);
        vstd::arithmetic::div_mod::lemma_fundamental_div_mod(f as int, 65535);
        let q = w / 65535;
        let qf = f / 65535;
        assert(w + c == 65535 * (q - qf + 1));
        vstd::arithmetic::div_mod::lemma_mod_multiples_vanish((q - qf + 1) as int, 0, 65535);
    }
    if w == 0 {
        assert(f == 0);
    }
    assert(w + c > 0);
    lemma_fold16_full(w + c);
}

/// How many times byte `b` occurs in `s`.
pub open spec fn byte_count(s: Seq<u8>, b: u8) -> nat
    decreases s.len(),
{
    if s.len() == 0 {
        0
    } else {
        byte_count(s.drop_last(), b) + if s.last() == b {
            1nat
        } else {
            0nat
        }
    }
}

proof fn lemma_byte_count_le(s: Seq<u8>, b: u8)
    ensures
        byte_count(s, b) <= s.len(),
    decreases s.len(),
{
    if s.len() > 0 {
        lemma_byte_count_le(s.drop_last(), b);
    }
}

/// The number of occurrences of each byte value, indexed by the value: the histogram that
/// the entropy of the data is computed from.
pub fn byte_counts(data: &[u8]) -> (r: Vec<usize>)
    ensures
        r@.len() == 256,
        forall|b: int| 0 <= b < 256 ==> #[trigger] r@[b] == byte_count(data@, b as u8),
{
    let mut counts: Vec<usize> = Vec::new();
    let mut k: usize = 0;
    while k < 256
        invariant
            k <= 256,
            counts@.len() == k,
            forall|b: int| 0 <= b < k ==> #[trigger] counts@[b] == 0,
        decreases 256 - k,
    {
        counts.push(0);
        k = k + 1;
    }
    let n = data.len();
    let mut i: usize = 0;
    assert(data@.take(0) =~= Seq::<u8>::empty());
    while i < n
        invariant
            i <= n,
            n == data@.len(),
            counts@.len() == 256,
            forall|b: int| 0 <= b < 256 ==> #[trigger] counts@[b] == byte_count(data@.take(i as int), b as u8),
        decreases n - i,
    {
        let x = data[i];
        let ghost pre = data@.take(i as int);
        assert(data@.take(i + 1).drop_last() =~= pre);
        assert(data@.take(i + 1).last() == x);
        proof {
            lemma_byte_count_le(pre, x);
        }
        let idx = x as usize;
        let c = counts[idx];
        assert(c == byte_count(pre, x));
        counts.set(idx, c + 1);
        assert forall|b: int| 0 <= b < 256 implies #[trigger] counts@[b] == byte_count(
            data@.take(i + 1),
            b as u8,
        ) by {
            if b != idx as int {
                assert((b as u8) != x);
            }
        }
        i = i + 1;
    }
    assert(data@.take(n as int) =~= data@);
    counts
}

} // verus!
