use vstd::prelude::*;

verus! {

/// The big-endian value of two bytes.
pub open spec fn be16(a: u8, b: u8) -> nat {
    a as nat * 256 + b as nat
}

/// The big-endian value of four bytes.
pub open spec fn be32(a: u8, b: u8, c: u8, d: u8) -> nat {
    a as nat * 16777216 + b as nat * 65536 + c as nat * 256 + d as nat
}

/// The big-endian 16-bit value at the start of `s`.
pub open spec fn be16_at(s: Seq<u8>, i: int) -> nat {
    be16(s[i], s[i + 1])
}

/// The big-endian 32-bit value at position `i` of `s`.
pub open spec fn be32_at(s: Seq<u8>, i: int) -> nat {
    be32(s[i], s[i + 1], s[i + 2], s[i + 3])
}

/// The little-endian 16-bit value at position `i` of `s`.
pub open spec fn le16_at(s: Seq<u8>, i: int) -> nat {
    be16(s[i + 1], s[i])
}

/// The little-endian 32-bit value at position `i` of `s`.
pub open spec fn le32_at(s: Seq<u8>, i: int) -> nat {
    be32(s[i + 3], s[i + 2], s[i + 1], s[i])
}

/// The two bytes of `v`, most significant first.
pub open spec fn be16_bytes(v: u16) -> Seq<u8> {
    seq![(v / 256) as u8, (v % 256) as u8]
}

/// The four bytes of `v`, most significant first.
pub open spec fn be32_bytes(v: u32) -> Seq<u8> {
    seq![(v / 16777216) as u8, (v / 65536 % 256) as u8, (v / 256 % 256) as u8, (v % 256) as u8]
}

/// `u16::from_be_bytes`.
pub fn u16_from_be(a: u8, b: u8) -> (r: u16)
    ensures
        r == be16(a, b),
{
    (a as u16) * 256 + (b as u16)
}

/// `u32::from_be_bytes`.
pub fn u32_from_be(a: u8, b: u8, c: u8, d: u8) -> (r: u32)
    ensures
        r == be32(a, b, c, d),
{
    (a as u32) * 16777216 + (b as u32) * 65536 + (c as u32) * 256 + (d as u32)
}

/// The big-endian `u16` at the start of `data`, if it holds two bytes.
pub fn read_u16_be(data: &[u8]) -> (r: Option<u16>)
    ensures
        data@.len() >= 2 ==> r == Some(be16_at(data@, 0) as u16),
        data@.len() < 2 ==> r is None,
{
    if data.len() < 2 {
        return None;
    }
    Some(u16_from_be(data[0], data[1]))
}

/// The little-endian `u16` at the start of `data`, if it holds two bytes.
pub fn read_u16_le(data: &[u8]) -> (r: Option<u16>)
    ensures
        data@.len() >= 2 ==> r == Some(le16_at(data@, 0) as u16),
        data@.len() < 2 ==> r is None,
{
    if data.len() < 2 {
        return None;
    }
    Some(u16_from_be(data[1], data[0]))
}

/// The big-endian `u32` at the start of `data`, if it holds four bytes.
pub fn read_u32_be(data: &[u8]) -> (r: Option<u32>)
    ensures
        data@.len() >= 4 ==> r == Some(be32_at(data@, 0) as u32),
        data@.len() < 4 ==> r is None,
{
    if data.len() < 4 {
        return None;
    }
    Some(u32_from_be(data[0], data[1], data[2], data[3]))
}

/// The little-endian `u32` at the start of `data`, if it holds four bytes.
pub fn read_u32_le(data: &[u8]) -> (r: Option<u32>)
    ensures
        data@.len() >= 4 ==> r == Some(le32_at(data@, 0) as u32),
        data@.len() < 4 ==> r is None,
{
    if data.len() < 4 {
        return None;
    }
    Some(u32_from_be(data[3], data[2], data[1], data[0]))
}

/// Appends `value` in big-endian order.
pub fn write_u16_be(value: u16, out: &mut Vec<u8>)
    ensures
        final(out)@ == old(out)@ + be16_bytes(value),
{
    out.push((value / 256) as u8);
    out.push((value % 256) as u8);
    assert(out@ =~= old(out)@ + be16_bytes(value));
}

/// Appends `value` in big-endian order.
pub fn write_u32_be(value: u32, out: &mut Vec<u8>)
    ensures
        final(out)@ == old(out)@ + be32_bytes(value),
{
    out.push((value / 16777216) as u8);
    out.push((value / 65536 % 256) as u8);
    out.push((value / 256 % 256) as u8);
    out.push((value % 256) as u8);
    assert(out@ =~= old(out)@ + be32_bytes(value));
}

/// Reading back what was written gives the value that was written.
pub proof fn law_u16_roundtrip(value: u16, prefix: Seq<u8>)
    ensures
        be16_at(prefix + be16_bytes(value), prefix.len() as int) == value,
{
    let s = prefix + be16_bytes(value);
    assert(s[prefix.len() as int] == (value / 256) as u8);
    assert(s[prefix.len() as int + 1] == (value % 256) as u8);
}

/// Reading back what was written gives the value that was written.
pub proof fn law_u32_roundtrip(value: u32, prefix: Seq<u8>)
    ensures
        be32_at(prefix + be32_bytes(value), prefix.len() as int) == value,
{
    let s = prefix + be32_bytes(value);
    let n = prefix.len() as int;
    assert(s[n] == (value / 16777216) as u8);
    assert(s[n + 1] == (value / 65536 % 256) as u8);
    assert(s[n + 2] == (value / 256 % 256) as u8);
    assert(s[n + 3] == (value % 256) as u8);
    let v = value as int;
    assert(v == (v / 16777216) * 16777216 + (v / 65536 % 256) * 65536 + (v / 256 % 256) * 256 + v
        % 256) by (nonlinear_arith)
        requires
            0 <= v < 0x1_0000_0000,
    ;
}

/// The smallest multiple of `align` that is at least `value` (`value` itself where `align`
/// is zero).
pub open spec fn spec_align_up(value: nat, align: nat) -> nat {
    if align == 0 || value % align == 0 {
        value
    } else {
        (value + (align - value % align)) as nat
    }
}

/// `value` rounded up to a multiple of `align`; the result must fit in `usize`.
pub fn align_up(value: usize, align: usize) -> (r: usize)
    requires
        spec_align_up(value as nat, align as nat) <= usize::MAX,
    ensures
        r == spec_align_up(value as nat, align as nat),
{
    if align == 0 {
        value
    } else {
        let rem = value % align;
        if rem == 0 {
            value
        } else {
            value + (align - rem)
        }
    }
}

/// `align_up` gives the smallest multiple of a non-zero `align` that is at least `value`.
pub proof fn law_align_up(value: nat, align: nat)
    requires
        align > 0,
    ensures
        spec_align_up(value, align) % align == 0,
        value <= spec_align_up(value, align) < value + align,
        forall|m: nat| #[trigger] (m % align) == 0 && value <= m ==> spec_align_up(value, align) <= m,
{
    let r = spec_align_up(value, align);
    let q = value / align;
    vstd::arithmetic::div_mod::lemma_fundamental_div_mod(value as int, align as int);
    if value % align != 0 {
        let m = value % align;
        assert(r == value + (align - m));
        assert(value == align * q + m);
        assert(r == align * q + align);
        assert(align * q + align == (q + 1) * align) by (nonlinear_arith);
        vstd::arithmetic::div_mod::lemma_mod_multiples_basic((q + 1) as int, align as int);
        assert forall|m: nat| #[trigger] (m % align) == 0 && value <= m implies r <= m by {
            vstd::arithmetic::div_mod::lemma_fundamental_div_mod(m as int, align as int);
            let k = m / align;
            assert(m == align * k);
            if k <= q {
                assert(align * k <= align * q) by (nonlinear_arith)
                    requires
                        k <= q,
                        align > 0,
                ;
            }
            assert(k >= q + 1);
            assert(align * k >= align * (q + 1)) by (nonlinear_arith)
                requires
                    k >= q + 1,
                    align > 0,
            ;
        }
    }
}

} // verus!
