use vstd::prelude::*;
use vstd::string::*;
use crate::common::checksum::{internet_checksum, spec_internet_checksum};
use crate::common::endian::{be16_at, u16_from_be};
use crate::common::ip::{Ipv4AddrExt, classify_ipv4, spec_classify_ipv4};
use crate::common::reader::truncated;
use crate::common::status::{AegisError, AegisResult, ErrorView};
use crate::common::text::{dec, push_dec};
use crate::common::endian::be32;

verus! {

#[derive(Debug, Clone, PartialEq, Eq)]
pub struct Ipv4Packet<'a> {
    pub version: u8,
    pub ihl: u8,
    pub dscp_ecn: u8,
    pub total_len: u16,
    pub identification: u16,
    pub flags: u8,
    pub fragment_offset: u16,
    pub ttl: u8,
    pub protocol: u8,
    pub checksum: u16,
    pub source: Ipv4AddrExt,
    pub destination: Ipv4AddrExt,
    pub options: &'a [u8],
    pub payload: &'a [u8],
    pub checksum_valid: bool,
}

/// Why an IPv4 header is refused, if it is.
pub open spec fn ipv4_error(s: Seq<u8>) -> Option<ErrorView> {
    if s.len() < 20 {
        Some(truncated(20, s.len()))
    } else {
        let version = s[0] / 16;
        let ihl = s[0] % 16;
        if version != 4 {
            Some(ErrorView::InvalidFormat("unexpected IP version "@ + dec(version as nat)))
        } else if ihl < 5 || s.len() < ihl * 4 {
            Some(
                truncated(
                    if ihl * 4 > 20 {
                        (ihl * 4) as nat
                    } else {
                        20
                    },
                    s.len(),
                ),
            )
        } else if be16_at(s, 2) > s.len() {
            Some(truncated(be16_at(s, 2), s.len()))
        } else {
            None
        }
    }
}

/// The fields of a header that `ipv4_error` accepts.
pub open spec fn ipv4_fields_ok(p: Ipv4Packet, s: Seq<u8>) -> bool {
    let hl = (s[0] % 16) as int * 4;
    let total = be16_at(s, 2) as int;
    &&& p.version == s[0] / 16
    &&& p.ihl == s[0] % 16
    &&& p.dscp_ecn == s[1]
    &&& p.total_len == total
    &&& p.identification == be16_at(s, 4)
    &&& p.flags == be16_at(s, 6) / 8192
    &&& p.fragment_offset == be16_at(s, 6) % 8192
    &&& p.ttl == s[8]
    &&& p.protocol == s[9]
    &&& p.checksum == be16_at(s, 10)
    &&& p.source.0 == be32(s[12], s[13], s[14], s[15])
    &&& p.destination.0 == be32(s[16], s[17], s[18], s[19])
    &&& p.options@ == s.subrange(20, hl)
    &&& p.payload@ == (if total >= hl {
        s.subrange(hl, total)
    } else {
        Seq::empty()
    })
    &&& p.checksum_valid == (spec_internet_checksum(s.take(hl)) == 0)
}

/// The notes `path_risk_notes` gives for a packet.
pub open spec fn spec_path_risk_notes(p: Ipv4Packet) -> Seq<Seq<char>> {
    (if p.ttl <= 1 {
        seq!["ttl-expiring-near-sensor"@]
    } else {
        Seq::empty()
    }) + (if !p.checksum_valid {
        seq!["invalid-ipv4-checksum"@]
    } else {
        Seq::empty()
    }) + (if p.fragment_offset != 0 || p.flags % 2 != 0 {
        seq!["fragmented-ipv4"@]
    } else {
        Seq::empty()
    }) + (if spec_classify_ipv4(p.source.0) == "global"@ && spec_classify_ipv4(p.destination.0)
        == "private"@ {
        seq!["inbound-global-to-private"@]
    } else {
        Seq::empty()
    })
}

impl<'a> Ipv4Packet<'a> {
    /// Parses an IPv4 header and takes the payload up to the total length.
    pub fn parse(data: &'a [u8]) -> (r: AegisResult<Self>)
        ensures
            match ipv4_error(data@) {
                Some(e) => r matches Err(x) && x@ == e,
                None => r matches Ok(p) && ipv4_fields_ok(p, data@),
            },
    {
        let n = data.len();
        if n < 20 {
            return Err(AegisError::Truncated { needed: 20, available: n });
        }
        let b0 = data[0];
        let version = b0 >> 4;
        let ihl = b0 & 0x0f;
        assert(version == b0 / 16 && ihl == b0 % 16) by (bit_vector)
            requires
                version == b0 >> 4,
                ihl == b0 & 0x0f,
        ;
        if version != 4 {
            let mut m = String::from_str("unexpected IP version ");
            push_dec(&mut m, version as u64);
            return Err(AegisError::InvalidFormat(m));
        }
        let header_len = (ihl as usize) * 4;
        if ihl < 5 || n < header_len {
            let needed = if header_len > 20 {
                header_len
            } else {
                20
            };
            return Err(AegisError::Truncated { needed, available: n });
        }
        let total_len = u16_from_be(data[2], data[3]);
        if total_len as usize > n {
            return Err(AegisError::Truncated { needed: total_len as usize, available: n });
        }
        let identification = u16_from_be(data[4], data[5]);
        let frag = u16_from_be(data[6], data[7]);
        let flags = (frag >> 13) as u8;
        let fragment_offset = frag & 0x1fff;
        assert(frag >> 13 == frag / 8192 && frag & 0x1fff == frag % 8192) by (bit_vector);
        let ttl = data[8];
        let protocol = data[9];
        let checksum = u16_from_be(data[10], data[11]);
        let source = Ipv4AddrExt::new(data[12], data[13], data[14], data[15]);
        let destination = Ipv4AddrExt::new(data[16], data[17], data[18], data[19]);
        let options = &data[20..header_len];
        let payload_end = total_len as usize;
        let payload: &[u8] = if payload_end >= header_len {
            &data[header_len..payload_end]
        } else {
            &[]
        };
        assert(payload_end < header_len ==> payload@ =~= Seq::<u8>::empty());
        let head = &data[0..header_len];
        assert(head@ == data@.take(header_len as int));
        let checksum_valid = internet_checksum(head) == 0;
        Ok(
            Ipv4Packet {
                version,
                ihl,
                dscp_ecn: data[1],
                total_len,
                identification,
                flags,
                fragment_offset,
                ttl,
                protocol,
                checksum,
                source,
                destination,
                options,
                payload,
                checksum_valid,
            },
        )
    }

    /// A fragment: a non-zero offset or the more-fragments bit.
    pub fn is_fragmented(&self) -> (r: bool)
        ensures
            r == (self.fragment_offset != 0 || self.flags % 2 != 0),
    {
        let f = self.flags;
        assert(f & 1 == f % 2) by (bit_vector);
        self.fragment_offset != 0 || self.flags & 0b001 != 0
    }

    /// Notes on how the packet travelled: an expiring TTL, a bad checksum, fragmentation,
    /// and traffic from a global address to a private one.
    pub fn path_risk_notes(&self) -> (r: Vec<String>)
        ensures
            r.deep_view() == spec_path_risk_notes(*self),
    {
        let mut notes: Vec<String> = Vec::new();
        let ghost mut acc: Seq<Seq<char>> = Seq::empty();
        if self.ttl <= 1 {
            notes.push(String::from_str("ttl-expiring-near-sensor"));
            proof {
                acc = acc.push("ttl-expiring-near-sensor"@);
            }
        }
        assert(notes.deep_view() =~= acc);
        let ghost a1 = acc;
        if !self.checksum_valid {
            notes.push(String::from_str("invalid-ipv4-checksum"));
            proof {
                acc = acc.push("invalid-ipv4-checksum"@);
            }
        }
        assert(notes.deep_view() =~= acc);
        let ghost a2 = acc;
        if self.is_fragmented() {
            notes.push(String::from_str("fragmented-ipv4"));
            proof {
                acc = acc.push("fragmented-ipv4"@);
            }
        }
        assert(notes.deep_view() =~= acc);
        let ghost a3 = acc;
        let src_class = classify_ipv4(self.source);
        let dst_class = classify_ipv4(self.destination);
        if crate::common::text::str_eq(src_class, "global") && crate::common::text::str_eq(
            dst_class,
            "private",
        ) {
            notes.push(String::from_str("inbound-global-to-private"));
            proof {
                acc = acc.push("inbound-global-to-private"@);
            }
        }
        assert(notes.deep_view() =~= acc);
        assert(acc =~= spec_path_risk_notes(*self));
        notes
    }
}

} // verus!
