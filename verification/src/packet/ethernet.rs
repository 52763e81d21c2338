use vstd::prelude::*;
use vstd::string::*;
use crate::common::endian::{be16_at, u16_from_be};
use crate::common::reader::truncated;
use crate::common::status::{AegisError, AegisResult, ErrorView};
use crate::common::text::push_char;

verus! {

/// A 48-bit hardware address.
#[derive(Debug, Clone, PartialEq, Eq)]
pub struct MacAddress(pub [u8; 6]);

pub open spec fn hex_digit(d: nat) -> char {
    if d < 10 {
        ((d + 48) as u32) as char
    } else {
        ((d + 87) as u32) as char
    }
}

/// Two lower-case hex digits.
pub open spec fn hex2(b: u8) -> Seq<char> {
    seq![hex_digit(b as nat / 16), hex_digit(b as nat % 16)]
}

/// Colon-separated hex bytes.
pub open spec fn mac_text(m: Seq<u8>) -> Seq<char>
    decreases m.len(),
{
    if m.len() == 0 {
        Seq::empty()
    } else if m.len() == 1 {
        hex2(m[0])
    } else {
        mac_text(m.drop_last()) + ":"@ + hex2(m.last())
    }
}

fn hex_digit_exec(d: u8) -> (c: char)
    requires
        d < 16,
    ensures
        c == hex_digit(d as nat),
{
    if d < 10 {
        crate::common::text::char_from_ascii((d + 48) as u32)
    } else {
        crate::common::text::char_from_ascii((d + 87) as u32)
    }
}

impl MacAddress {
    pub fn is_broadcast(&self) -> (r: bool)
        ensures
            r == (forall|i: int| 0 <= i < 6 ==> self.0@[i] == 0xff),
    {
        let a = &self.0;
        let r = a[0] == 0xff && a[1] == 0xff && a[2] == 0xff && a[3] == 0xff && a[4] == 0xff && a[5]
            == 0xff;
        assert(r == (forall|i: int| 0 <= i < 6 ==> self.0@[i] == 0xff)) by {
            if !r {
                assert(!(a@[0] == 0xff && a@[1] == 0xff && a@[2] == 0xff && a@[3] == 0xff && a@[4]
                    == 0xff && a@[5] == 0xff));
            }
        }
        r
    }

    /// The group bit (lowest bit of the first byte) is set.
    pub fn is_multicast(&self) -> (r: bool)
        ensures
            r == (self.0@[0] % 2 == 1),
    {
        let b = self.0[0];
        assert(b & 1 == b % 2) by (bit_vector);
        b & 1 == 1
    }

    /// `aa:bb:cc:dd:ee:ff`.
    pub fn render(&self) -> (r: String)
        ensures
            r@ == mac_text(self.0@),
    {
        let mut s = String::new();
        let mut i: usize = 0;
        while i < 6
            invariant
                i <= 6,
                self.0@.len() == 6,
                s@ == mac_text(self.0@.take(i as int)),
            decreases 6 - i,
        {
            let b = self.0[i];
            assert(self.0@.take(i + 1).drop_last() =~= self.0@.take(i as int));
            let ghost before = s@;
            if i > 0 {
                s.append(":");
            }
            let ghost mid = s@;
            push_char(&mut s, hex_digit_exec(b / 16));
            push_char(&mut s, hex_digit_exec(b % 16));
            assert(s@ =~= mid + hex2(b));
            assert(self.0@.take(i + 1).last() == b);
            if i == 0 {
                assert(self.0@.take(i as int) =~= Seq::<u8>::empty());
                assert(mac_text(self.0@.take(1)) == hex2(self.0@.take(1)[0]));
                assert(s@ =~= hex2(b));
            } else {
                assert(mac_text(self.0@.take(i + 1)) == mac_text(self.0@.take(i as int)) + ":"@
                    + hex2(b));
            }
            i = i + 1;
        }
        assert(self.0@.take(6) =~= self.0@);
        s
    }
}

#[derive(Debug, Clone, PartialEq, Eq)]
pub struct EthernetFrame<'a> {
    pub destination: MacAddress,
    pub source: MacAddress,
    pub ethertype: u16,
    pub vlan_tags: Vec<u16>,
    pub payload: &'a [u8],
}

/// The ethertypes that announce a VLAN tag.
pub open spec fn is_vlan_type(t: u16) -> bool {
    t == 0x8100 || t == 0x88a8
}

/// Walking VLAN tags from `offset`, where the last type read is `ethertype`: the tags, the
/// final ethertype and the payload offset, or the error.
pub open spec fn vlan_walk(s: Seq<u8>, offset: nat, ethertype: u16) -> Result<
    (Seq<u16>, u16, nat),
    ErrorView,
>
    decreases s.len() - offset,
{
    if !is_vlan_type(ethertype) {
        Ok((Seq::empty(), ethertype, offset))
    } else if s.len() < offset + 4 {
        Err(truncated(offset + 4, s.len()))
    } else {
        match vlan_walk(s, offset + 4, be16_at(s, offset as int + 2) as u16) {
            Ok((tags, t, off)) => Ok((seq![be16_at(s, offset as int) as u16] + tags, t, off)),
            Err(e) => Err(e),
        }
    }
}

/// What parsing a frame gives: tags, ethertype and payload offset, or the error.
pub open spec fn spec_ethernet(s: Seq<u8>) -> Result<(Seq<u16>, u16, nat), ErrorView> {
    if s.len() < 14 {
        Err(truncated(14, s.len()))
    } else {
        vlan_walk(s, 14, be16_at(s, 12) as u16)
    }
}

pub open spec fn prepend_tags(acc: Seq<u16>, r: Result<(Seq<u16>, u16, nat), ErrorView>) -> Result<
    (Seq<u16>, u16, nat),
    ErrorView,
> {
    match r {
        Ok((tags, t, off)) => Ok((acc + tags, t, off)),
        Err(e) => Err(e),
    }
}

impl<'a> EthernetFrame<'a> {
    /// Parses an Ethernet II header, following 802.1Q and 802.1ad tags.
    pub fn parse(data: &'a [u8]) -> (r: AegisResult<Self>)
        requires
            data@.len() <= isize::MAX,
        ensures
            match spec_ethernet(data@) {
                Err(e) => r matches Err(x) && x@ == e,
                Ok((tags, t, off)) => r matches Ok(f) && {
                    &&& f.destination.0@ == data@.subrange(0, 6)
                    &&& f.source.0@ == data@.subrange(6, 12)
                    &&& f.ethertype == t
                    &&& f.vlan_tags@ == tags
                    &&& off <= data@.len()
                    &&& f.payload@ == data@.skip(off as int)
                },
            },
    {
        let n = data.len();
        if n < 14 {
            return Err(AegisError::Truncated { needed: 14, available: n });
        }
        let dst = [data[0], data[1], data[2], data[3], data[4], data[5]];
        let src = [data[6], data[7], data[8], data[9], data[10], data[11]];
        assert(dst@ =~= data@.subrange(0, 6));
        assert(src@ =~= data@.subrange(6, 12));
        let mut offset: usize = 12;
        let mut ethertype = u16_from_be(data[offset], data[offset + 1]);
        offset = offset + 2;
        let mut vlan_tags: Vec<u16> = Vec::new();
        assert(vlan_tags@ + Seq::<u16>::empty() =~= Seq::<u16>::empty());
        assert(prepend_tags(Seq::empty(), vlan_walk(data@, 14, ethertype)) == vlan_walk(
            data@,
            14,
            ethertype,
        )) by {
            match vlan_walk(data@, 14, ethertype) {
                Ok((tags, t, off)) => {
                    assert(Seq::<u16>::empty() + tags =~= tags);
                },
                Err(e) => {},
            }
        }
        while ethertype == 0x8100 || ethertype == 0x88a8
            invariant
                n == data@.len(),
                n <= isize::MAX,
                14 <= offset <= n,
                spec_ethernet(data@) == prepend_tags(
                    vlan_tags@,
                    vlan_walk(data@, offset as nat, ethertype),
                ),
            decreases n - offset,
        {
            if n < offset + 4 {
                return Err(AegisError::Truncated { needed: offset + 4, available: n });
            }
            let tag = u16_from_be(data[offset], data[offset + 1]);
            let next = u16_from_be(data[offset + 2], data[offset + 3]);
            proof {
                let rest = vlan_walk(data@, (offset + 4) as nat, next);
                match rest {
                    Ok((tags, t, off)) => {
                        assert(vlan_tags@.push(tag) + tags =~= vlan_tags@ + (seq![tag] + tags));
                    },
                    Err(e) => {},
                }
            }
            vlan_tags.push(tag);
            ethertype = next;
            offset = offset + 4;
        }
        Ok(
            EthernetFrame {
                destination: MacAddress(dst),
                source: MacAddress(src),
                ethertype,
                vlan_tags,
                payload: &data[offset..n],
            },
        )
    }

    pub open spec fn spec_ethertype_name(t: u16) -> Seq<char> {
        match t {
            0x0800 => "ipv4"@,
            0x0806 => "arp"@,
            0x86dd => "ipv6"@,
            0x8847 => "mpls-unicast"@,
            0x8848 => "mpls-multicast"@,
            _ => "unknown"@,
        }
    }

    pub fn ethertype_name(&self) -> (r: &'static str)
        ensures
            r@ == Self::spec_ethertype_name(self.ethertype),
    {
        match self.ethertype {
            0x0800 => "ipv4",
            0x0806 => "arp",
            0x86dd => "ipv6",
            0x8847 => "mpls-unicast",
            0x8848 => "mpls-multicast",
            _ => "unknown",
        }
    }
}

} // verus!
