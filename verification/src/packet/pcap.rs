use vstd::prelude::*;
use vstd::string::*;
use crate::common::endian::{be16_at, be32_at, le16_at, le32_at, u16_from_be, u32_from_be};
use crate::common::reader::truncated;
use crate::common::status::{AegisError, AegisResult, ErrorView};
use crate::common::time::Timestamp;

verus! {

/// Byte order of a capture file.
#[derive(Debug, Clone, Copy, PartialEq, Eq, Structural)]
pub enum PcapEndian {
    Little,
    Big,
}

#[derive(Debug, Clone, PartialEq, Eq)]
pub struct PcapGlobalHeader {
    pub endian: PcapEndian,
    pub nanos_resolution: bool,
    pub version_major: u16,
    pub version_minor: u16,
    pub snaplen: u32,
    pub network: u32,
}

#[derive(Debug, Clone, PartialEq, Eq)]
pub struct PcapPacket<'a> {
    pub timestamp: Timestamp,
    pub captured_len: u32,
    pub original_len: u32,
    pub data: &'a [u8],
}

#[derive(Debug, Clone, PartialEq, Eq)]
pub struct PcapFile<'a> {
    pub header: PcapGlobalHeader,
    pub packets: Vec<PcapPacket<'a>>,
}

/// The largest number of packet records a capture may hold.
pub const PCAP_PACKET_LIMIT: usize = 100_000;

/// A 16-bit field at `i` in the file's byte order.
pub open spec fn rd16(s: Seq<u8>, i: int, endian: PcapEndian) -> u16 {
    (match endian {
        PcapEndian::Little => le16_at(s, i),
        PcapEndian::Big => be16_at(s, i),
    }) as u16
}

/// A 32-bit field at `i` in the file's byte order.
pub open spec fn rd32(s: Seq<u8>, i: int, endian: PcapEndian) -> u32 {
    (match endian {
        PcapEndian::Little => le32_at(s, i),
        PcapEndian::Big => be32_at(s, i),
    }) as u32
}

/// The byte order and timestamp resolution a magic number announces.
pub open spec fn pcap_magic(s: Seq<u8>) -> Option<(PcapEndian, bool)> {
    if s[0] == 0xd4 && s[1] == 0xc3 && s[2] == 0xb2 && s[3] == 0xa1 {
        Some((PcapEndian::Little, false))
    } else if s[0] == 0xa1 && s[1] == 0xb2 && s[2] == 0xc3 && s[3] == 0xd4 {
        Some((PcapEndian::Big, false))
    } else if s[0] == 0x4d && s[1] == 0x3c && s[2] == 0xb2 && s[3] == 0xa1 {
        Some((PcapEndian::Little, true))
    } else if s[0] == 0xa1 && s[1] == 0xb2 && s[2] == 0x3c && s[3] == 0x4d {
        Some((PcapEndian::Big, true))
    } else {
        None
    }
}

/// One packet record as positions in the file.
pub ghost struct PcapRecord {
    pub ts_sec: u32,
    pub ts_frac: u32,
    pub captured: u32,
    pub original: u32,
    pub start: nat,
    pub end: nat,
}

/// The packet records from `off` on, `count` records having come before.
pub open spec fn pcap_records(
    s: Seq<u8>,
    off: nat,
    endian: PcapEndian,
    count: nat,
) -> Result<Seq<PcapRecord>, ErrorView>
    decreases s.len() - off,
{
    if off >= s.len() {
        Ok(Seq::empty())
    } else if s.len() - off < 16 {
        Err(truncated(off + 16, s.len()))
    } else {
        let incl = rd32(s, off as int + 8, endian);
        let end: nat = (off + 16 + incl) as nat;
        if end > usize::MAX {
            Err(ErrorView::InvalidFormat("pcap packet length overflow"@))
        } else if end > s.len() {
            Err(truncated(end, s.len()))
        } else if count + 1 > 100_000 {
            Err(ErrorView::InvalidFormat("pcap packet count safety limit"@))
        } else {
            let rec = PcapRecord {
                ts_sec: rd32(s, off as int, endian),
                ts_frac: rd32(s, off as int + 4, endian),
                captured: incl,
                original: rd32(s, off as int + 12, endian),
                start: off + 16,
                end: end,
            };
            match pcap_records(s, end, endian, count + 1) {
                Ok(rest) => Ok(seq![rec] + rest),
                Err(e) => Err(e),
            }
        }
    }
}

/// What parsing a capture gives: the global header fields and the packet records, or the
/// error.
pub open spec fn spec_pcap(s: Seq<u8>) -> Result<(PcapEndian, bool, Seq<PcapRecord>), ErrorView> {
    if s.len() < 24 {
        Err(truncated(24, s.len()))
    } else {
        match pcap_magic(s) {
            None => Err(ErrorView::InvalidFormat("unknown pcap magic"@)),
            Some((e, nanos)) => match pcap_records(s, 24, e, 0) {
                Ok(recs) => Ok((e, nanos, recs)),
                Err(x) => Err(x),
            },
        }
    }
}

/// The records `acc` followed by those of `rest`, or the error of `rest`.
pub open spec fn prepend_records(
    acc: Seq<PcapRecord>,
    rest: Result<Seq<PcapRecord>, ErrorView>,
) -> Result<Seq<PcapRecord>, ErrorView> {
    match rest {
        Ok(r) => Ok(acc + r),
        Err(e) => Err(e),
    }
}

proof fn lemma_prepend_twice(
    a: Seq<PcapRecord>,
    b: Seq<PcapRecord>,
    rest: Result<Seq<PcapRecord>, ErrorView>,
)
    ensures
        prepend_records(a, prepend_records(b, rest)) == prepend_records(a + b, rest),
{
    match rest {
        Ok(r) => {
            assert(a + (b + r) =~= (a + b) + r);
        },
        Err(e) => {},
    }
}

/// The packet is the record, read from `s`.
pub open spec fn packet_matches(p: PcapPacket, rec: PcapRecord, s: Seq<u8>, nanos: bool) -> bool {
    &&& p.timestamp == Timestamp::spec_from_pcap(rec.ts_sec, rec.ts_frac, nanos)
    &&& p.captured_len == rec.captured
    &&& p.original_len == rec.original
    &&& p.data@ == s.subrange(rec.start as int, rec.end as int)
}

fn read16(s: &[u8], i: usize, endian: PcapEndian) -> (r: u16)
    requires
        i + 2 <= s.len(),
    ensures
        r == rd16(s@, i as int, endian),
{
    match endian {
        PcapEndian::Little => u16_from_be(s[i + 1], s[i]),
        PcapEndian::Big => u16_from_be(s[i], s[i + 1]),
    }
}

fn read32(s: &[u8], i: usize, endian: PcapEndian) -> (r: u32)
    requires
        i + 4 <= s.len(),
    ensures
        r == rd32(s@, i as int, endian),
{
    match endian {
        PcapEndian::Little => u32_from_be(s[i + 3], s[i + 2], s[i + 1], s[i]),
        PcapEndian::Big => u32_from_be(s[i], s[i + 1], s[i + 2], s[i + 3]),
    }
}

impl<'a> PcapFile<'a> {
    /// Parses a classic capture file: a 24-byte global header, then packet records.
    pub fn parse(data: &'a [u8]) -> (r: AegisResult<Self>)
        requires
            data@.len() <= isize::MAX,
        ensures
            match spec_pcap(data@) {
                Err(e) => r matches Err(x) && x@ == e,
                Ok((endian, nanos, recs)) => r matches Ok(f) && {
                    &&& f.header.endian == endian
                    &&& f.header.nanos_resolution == nanos
                    &&& f.header.version_major == rd16(data@, 4, endian)
                    &&& f.header.version_minor == rd16(data@, 6, endian)
                    &&& f.header.snaplen == rd32(data@, 16, endian)
                    &&& f.header.network == rd32(data@, 20, endian)
                    &&& f.packets@.len() == recs.len()
                    &&& forall|i: int|
                        0 <= i < recs.len() ==> packet_matches(
                            #[trigger] f.packets@[i],
                            recs[i],
                            data@,
                            nanos,
                        )
                },
            },
    {
        let n = data.len();
        if n < 24 {
            return Err(AegisError::Truncated { needed: 24, available: n });
        }
        let (endian, nanos_resolution) = if data[0] == 0xd4 && data[1] == 0xc3 && data[2] == 0xb2
            && data[3] == 0xa1 {
            (PcapEndian::Little, false)
        } else if data[0] == 0xa1 && data[1] == 0xb2 && data[2] == 0xc3 && data[3] == 0xd4 {
            (PcapEndian::Big, false)
        } else if data[0] == 0x4d && data[1] == 0x3c && data[2] == 0xb2 && data[3] == 0xa1 {
            (PcapEndian::Little, true)
        } else if data[0] == 0xa1 && data[1] == 0xb2 && data[2] == 0x3c && data[3] == 0x4d {
            (PcapEndian::Big, true)
        } else {
            return Err(AegisError::InvalidFormat(String::from_str("unknown pcap magic")));
        };
        let header = PcapGlobalHeader {
            endian,
            nanos_resolution,
            version_major: read16(data, 4, endian),
            version_minor: read16(data, 6, endian),
            snaplen: read32(data, 16, endian),
            network: read32(data, 20, endian),
        };
        let mut packets: Vec<PcapPacket<'a>> = Vec::new();
        let mut offset: usize = 24;
        let ghost mut recs: Seq<PcapRecord> = Seq::empty();
        while offset < n
            invariant
                n == data@.len(),
                n <= isize::MAX,
                24 <= offset <= n,
                packets@.len() == recs.len(),
                packets@.len() <= 100_000,
                pcap_magic(data@) == Some((endian, nanos_resolution)),
                forall|i: int|
                    0 <= i < recs.len() ==> packet_matches(
                        #[trigger] packets@[i],
                        recs[i],
                        data@,
                        nanos_resolution,
                    ),
                pcap_records(data@, 24, endian, 0) == prepend_records(
                    recs,
                    pcap_records(data@, offset as nat, endian, recs.len()),
                ),
            decreases n - offset,
        {
            if n - offset < 16 {
                return Err(AegisError::Truncated { needed: offset + 16, available: n });
            }
            let ts_sec = read32(data, offset, endian);
            let ts_frac = read32(data, offset + 4, endian);
            let incl_len = read32(data, offset + 8, endian);
            let orig_len = read32(data, offset + 12, endian);
            let start = offset + 16;
            let end = match start.checked_add(incl_len as usize) {
                Some(e) => e,
                None => {
                    return Err(
                        AegisError::InvalidFormat(String::from_str("pcap packet length overflow")),
                    );
                },
            };
            if end > n {
                return Err(AegisError::Truncated { needed: end, available: n });
            }
            let pkt = PcapPacket {
                timestamp: Timestamp::from_pcap(ts_sec, ts_frac, nanos_resolution),
                captured_len: incl_len,
                original_len: orig_len,
                data: &data[start..end],
            };
            let ghost rec = PcapRecord {
                ts_sec,
                ts_frac,
                captured: incl_len,
                original: orig_len,
                start: start as nat,
                end: end as nat,
            };
            packets.push(pkt);
            if packets.len() > PCAP_PACKET_LIMIT {
                return Err(
                    AegisError::InvalidFormat(String::from_str("pcap packet count safety limit")),
                );
            }
            proof {
                let old_recs = recs;
                recs = recs.push(rec);
                assert(pcap_records(data@, offset as nat, endian, old_recs.len()) == prepend_records(
                    seq![rec],
                    pcap_records(data@, end as nat, endian, recs.len()),
                ));
                lemma_prepend_twice(old_recs, seq![rec], pcap_records(data@, end as nat, endian, recs.len()));
                assert(old_recs + seq![rec] =~= recs);
                assert forall|i: int| 0 <= i < recs.len() implies packet_matches(
                    #[trigger] packets@[i],
                    recs[i],
                    data@,
                    nanos_resolution,
                ) by {}
            }
            offset = end;
        }
        assert(pcap_records(data@, offset as nat, endian, recs.len()) == Ok::<Seq<PcapRecord>, ErrorView>(Seq::empty()));
        assert(recs + Seq::<PcapRecord>::empty() =~= recs);
        Ok(PcapFile { header, packets })
    }
}

} // verus!
