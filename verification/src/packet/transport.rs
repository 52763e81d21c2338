use vstd::prelude::*;
use crate::common::endian::{be16_at, be32_at, u16_from_be, u32_from_be};
use crate::common::reader::truncated;
use crate::common::status::{AegisError, AegisResult, ErrorView};

verus! {

#[derive(Debug, Clone, PartialEq, Eq)]
pub struct TcpSegment<'a> {
    pub source_port: u16,
    pub destination_port: u16,
    pub sequence: u32,
    pub acknowledgement: u32,
    pub data_offset: u8,
    pub flags: u16,
    pub window: u16,
    pub checksum: u16,
    pub urgent_pointer: u16,
    pub options: &'a [u8],
    pub payload: &'a [u8],
}

/// Why a TCP header is refused, if it is.
pub open spec fn tcp_error(s: Seq<u8>) -> Option<ErrorView> {
    if s.len() < 20 {
        Some(truncated(20, s.len()))
    } else {
        let hl = (s[12] / 16) as nat * 4;
        if hl < 20 || hl > s.len() {
            Some(
                truncated(
                    if hl > 20 {
                        hl
                    } else {
                        20
                    },
                    s.len(),
                ),
            )
        } else {
            None
        }
    }
}

pub open spec fn tcp_fields_ok(t: TcpSegment, s: Seq<u8>) -> bool {
    let hl = (s[12] / 16) as int * 4;
    &&& t.source_port == be16_at(s, 0)
    &&& t.destination_port == be16_at(s, 2)
    &&& t.sequence == be32_at(s, 4)
    &&& t.acknowledgement == be32_at(s, 8)
    &&& t.data_offset == s[12] / 16
    &&& t.flags == (s[12] % 2) as nat * 256 + s[13] as nat
    &&& t.window == be16_at(s, 14)
    &&& t.checksum == be16_at(s, 16)
    &&& t.urgent_pointer == be16_at(s, 18)
    &&& t.options@ == s.subrange(20, hl)
    &&& t.payload@ == s.skip(hl)
}

/// The names of the flags set, from `ns` down to `fin`.
pub open spec fn spec_flag_names(f: u16) -> Seq<Seq<char>> {
    (if f & 0x100 != 0 { seq!["ns"@] } else { Seq::empty() }) + (if f & 0x080 != 0 {
        seq!["cwr"@]
    } else {
        Seq::empty()
    }) + (if f & 0x040 != 0 { seq!["ece"@] } else { Seq::empty() }) + (if f & 0x020 != 0 {
        seq!["urg"@]
    } else {
        Seq::empty()
    }) + (if f & 0x010 != 0 { seq!["ack"@] } else { Seq::empty() }) + (if f & 0x008 != 0 {
        seq!["psh"@]
    } else {
        Seq::empty()
    }) + (if f & 0x004 != 0 { seq!["rst"@] } else { Seq::empty() }) + (if f & 0x002 != 0 {
        seq!["syn"@]
    } else {
        Seq::empty()
    }) + (if f & 0x001 != 0 { seq!["fin"@] } else { Seq::empty() })
}

fn push_flag(out: &mut Vec<&'static str>, set: bool, name: &'static str, acc: Ghost<Seq<Seq<char>>>)
    requires
        old(out).deep_view() == acc@,
    ensures
        final(out).deep_view() == acc@ + (if set {
            seq![name@]
        } else {
            Seq::empty()
        }),
{
    if set {
        out.push(name);
    }
    assert(out.deep_view() =~= acc@ + (if set {
        seq![name@]
    } else {
        Seq::empty()
    }));
}

impl<'a> TcpSegment<'a> {
    pub fn parse(data: &'a [u8]) -> (r: AegisResult<Self>)
        ensures
            match tcp_error(data@) {
                Some(e) => r matches Err(x) && x@ == e,
                None => r matches Ok(t) && tcp_fields_ok(t, data@),
            },
    {
        let n = data.len();
        if n < 20 {
            return Err(AegisError::Truncated { needed: 20, available: n });
        }
        let source_port = u16_from_be(data[0], data[1]);
        let destination_port = u16_from_be(data[2], data[3]);
        let sequence = u32_from_be(data[4], data[5], data[6], data[7]);
        let acknowledgement = u32_from_be(data[8], data[9], data[10], data[11]);
        let b12 = data[12];
        let data_offset = b12 >> 4;
        assert(b12 >> 4 == b12 / 16 && b12 & 1 == b12 % 2) by (bit_vector);
        let header_len = data_offset as usize * 4;
        if header_len < 20 || header_len > n {
            let needed = if header_len > 20 {
                header_len
            } else {
                20
            };
            return Err(AegisError::Truncated { needed, available: n });
        }
        let flags = ((b12 & 1) as u16) * 256 + data[13] as u16;
        let window = u16_from_be(data[14], data[15]);
        let checksum = u16_from_be(data[16], data[17]);
        let urgent_pointer = u16_from_be(data[18], data[19]);
        Ok(
            TcpSegment {
                source_port,
                destination_port,
                sequence,
                acknowledgement,
                data_offset,
                flags,
                window,
                checksum,
                urgent_pointer,
                options: &data[20..header_len],
                payload: &data[header_len..n],
            },
        )
    }

    /// The names of the flags that are set, most significant first.
    pub fn flag_names(&self) -> (r: Vec<&'static str>)
        ensures
            r.deep_view() == spec_flag_names(self.flags),
    {
        let f = self.flags;
        let mut out: Vec<&'static str> = Vec::new();
        assert(out.deep_view() =~= Seq::<Seq<char>>::empty());
        let ghost a0 = out.deep_view();
        push_flag(&mut out, f & 0x100 != 0, "ns", Ghost(a0));
        let ghost a1 = out.deep_view();
        push_flag(&mut out, f & 0x080 != 0, "cwr", Ghost(a1));
        let ghost a2 = out.deep_view();
        push_flag(&mut out, f & 0x040 != 0, "ece", Ghost(a2));
        let ghost a3 = out.deep_view();
        push_flag(&mut out, f & 0x020 != 0, "urg", Ghost(a3));
        let ghost a4 = out.deep_view();
        push_flag(&mut out, f & 0x010 != 0, "ack", Ghost(a4));
        let ghost a5 = out.deep_view();
        push_flag(&mut out, f & 0x008 != 0, "psh", Ghost(a5));
        let ghost a6 = out.deep_view();
        push_flag(&mut out, f & 0x004 != 0, "rst", Ghost(a6));
        let ghost a7 = out.deep_view();
        push_flag(&mut out, f & 0x002 != 0, "syn", Ghost(a7));
        let ghost a8 = out.deep_view();
        push_flag(&mut out, f & 0x001 != 0, "fin", Ghost(a8));
        assert(out.deep_view() =~= spec_flag_names(f));
        out
    }
}

#[derive(Debug, Clone, PartialEq, Eq)]
pub struct UdpDatagram<'a> {
    pub source_port: u16,
    pub destination_port: u16,
    pub length: u16,
    pub checksum: u16,
    pub payload: &'a [u8],
}

/// Why a UDP header is refused, if it is.
pub open spec fn udp_error(s: Seq<u8>) -> Option<ErrorView> {
    if s.len() < 8 {
        Some(truncated(8, s.len()))
    } else if be16_at(s, 4) < 8 || be16_at(s, 4) > s.len() {
        Some(truncated(be16_at(s, 4), s.len()))
    } else {
        None
    }
}

pub open spec fn udp_fields_ok(u: UdpDatagram, s: Seq<u8>) -> bool {
    &&& u.source_port == be16_at(s, 0)
    &&& u.destination_port == be16_at(s, 2)
    &&& u.length == be16_at(s, 4)
    &&& u.checksum == be16_at(s, 6)
    &&& u.payload@ == s.subrange(8, be16_at(s, 4) as int)
}

impl<'a> UdpDatagram<'a> {
    pub fn parse(data: &'a [u8]) -> (r: AegisResult<Self>)
        ensures
            match udp_error(data@) {
                Some(e) => r matches Err(x) && x@ == e,
                None => r matches Ok(u) && udp_fields_ok(u, data@),
            },
    {
        let n = data.len();
        if n < 8 {
            return Err(AegisError::Truncated { needed: 8, available: n });
        }
        let source_port = u16_from_be(data[0], data[1]);
        let destination_port = u16_from_be(data[2], data[3]);
        let length = u16_from_be(data[4], data[5]);
        let checksum = u16_from_be(data[6], data[7]);
        if length < 8 || length as usize > n {
            return Err(AegisError::Truncated { needed: length as usize, available: n });
        }
        Ok(
            UdpDatagram {
                source_port,
                destination_port,
                length,
                checksum,
                payload: &data[8..length as usize],
            },
        )
    }
}

#[derive(Debug, Clone, PartialEq, Eq)]
pub enum TransportPacket<'a> {
    Tcp(TcpSegment<'a>),
    Udp(UdpDatagram<'a>),
    Other { protocol: u8, payload: &'a [u8] },
}

impl<'a> TransportPacket<'a> {
    /// Parses TCP (6) and UDP (17); any other protocol is carried as it is.
    pub fn parse(protocol: u8, data: &'a [u8]) -> (r: AegisResult<Self>)
        ensures
            protocol == 6 ==> match tcp_error(data@) {
                Some(e) => r matches Err(x) && x@ == e,
                None => r matches Ok(TransportPacket::Tcp(t)) && tcp_fields_ok(t, data@),
            },
            protocol == 17 ==> match udp_error(data@) {
                Some(e) => r matches Err(x) && x@ == e,
                None => r matches Ok(TransportPacket::Udp(u)) && udp_fields_ok(u, data@),
            },
            protocol != 6 && protocol != 17 ==> (r matches Ok(
                TransportPacket::Other { protocol: p, payload },
            ) && p == protocol && payload@ == data@),
    {
        if protocol == 6 {
            match TcpSegment::parse(data) {
                Ok(t) => Ok(TransportPacket::Tcp(t)),
                Err(e) => Err(e),
            }
        } else if protocol == 17 {
            match UdpDatagram::parse(data) {
                Ok(u) => Ok(TransportPacket::Udp(u)),
                Err(e) => Err(e),
            }
        } else {
            Ok(TransportPacket::Other { protocol, payload: data })
        }
    }

    pub open spec fn spec_ports(&self) -> Option<(u16, u16)> {
        match self {
            TransportPacket::Tcp(t) => Some((t.source_port, t.destination_port)),
            TransportPacket::Udp(u) => Some((u.source_port, u.destination_port)),
            TransportPacket::Other { .. } => None,
        }
    }

    /// Source and destination ports, for TCP and UDP.
    pub fn ports(&self) -> (r: Option<(u16, u16)>)
        ensures
            r == self.spec_ports(),
    {
        match self {
            TransportPacket::Tcp(t) => Some((t.source_port, t.destination_port)),
            TransportPacket::Udp(u) => Some((u.source_port, u.destination_port)),
            TransportPacket::Other { .. } => None,
        }
    }
}

} // verus!
