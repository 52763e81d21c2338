use vstd::prelude::*;
use vstd::string::*;
use crate::common::catalog::{dns_record_name, spec_dns_record_name};
use crate::common::endian::{be16_at, be32_at};
use crate::common::reader::{ByteReader, truncated};
use crate::common::status::{AegisError, AegisResult, ErrorView};
use crate::common::strings::{lossy_text, string_from_utf8_lossy};
use crate::common::text::{chars_of, dec, lower_seq, lower_string, push_dec};

verus! {

#[derive(Debug, Clone, PartialEq, Eq)]
pub struct DnsHeader {
    pub id: u16,
    pub flags: u16,
    pub qdcount: u16,
    pub ancount: u16,
    pub nscount: u16,
    pub arcount: u16,
}

#[derive(Debug, Clone, PartialEq, Eq)]
pub struct DnsQuestion {
    pub name: String,
    pub qtype: u16,
    pub qclass: u16,
}

#[derive(Debug, Clone, PartialEq, Eq)]
pub struct DnsRecord {
    pub name: String,
    pub rrtype: u16,
    pub class: u16,
    pub ttl: u32,
    pub data_len: u16,
}

#[derive(Debug, Clone, PartialEq, Eq)]
pub struct DnsMessage {
    pub header: DnsHeader,
    pub questions: Vec<DnsQuestion>,
    pub answers: Vec<DnsRecord>,
    pub authorities: Vec<DnsRecord>,
    pub additionals: Vec<DnsRecord>,
}

/// The most questions read from one message.
pub const DNS_QUESTION_LIMIT: u16 = 64;

/// The most records read from one section.
pub const DNS_RECORD_LIMIT: u16 = 128;

/// The deepest chain of compression pointers followed.
pub const DNS_POINTER_DEPTH: u8 = 12;

pub ghost struct QuestionView {
    pub name: Seq<char>,
    pub qtype: u16,
    pub qclass: u16,
}

pub ghost struct RecordView {
    pub name: Seq<char>,
    pub rrtype: u16,
    pub class: u16,
    pub ttl: u32,
    pub data_len: u16,
}

impl View for DnsQuestion {
    type V = QuestionView;

    open spec fn view(&self) -> QuestionView {
        QuestionView { name: self.name@, qtype: self.qtype, qclass: self.qclass }
    }
}

impl View for DnsRecord {
    type V = RecordView;

    open spec fn view(&self) -> RecordView {
        RecordView {
            name: self.name@,
            rrtype: self.rrtype,
            class: self.class,
            ttl: self.ttl,
            data_len: self.data_len,
        }
    }
}

/// Labels joined with dots.
pub open spec fn join_dot(ls: Seq<Seq<char>>) -> Seq<char>
    decreases ls.len(),
{
    if ls.len() == 0 {
        Seq::empty()
    } else if ls.len() == 1 {
        ls[0]
    } else {
        join_dot(ls.drop_last()) + "."@ + ls.last()
    }
}

/// The text of a label of `len` bytes at `start`: read as UTF-8, then lower-cased.
pub open spec fn label_text(s: Seq<u8>, start: int, len: int) -> Seq<char> {
    lower_seq(lossy_text(s.subrange(start, start + len)))
}

pub open spec fn depth_room(depth: nat) -> nat {
    if depth <= 12 {
        (12 - depth) as nat
    } else {
        0
    }
}

/// The labels of a name from `pos`, with `depth` pointers followed so far: each label or
/// pointed-to name, and the position after the name, or the error.
pub open spec fn dns_labels(s: Seq<u8>, pos: nat, depth: nat) -> Result<
    (Seq<Seq<char>>, nat),
    ErrorView,
>
    decreases depth_room(depth), s.len() - pos,
{
    if pos >= s.len() {
        Err(truncated(1, 0))
    } else {
        let b = s[pos as int];
        if b == 0 {
            Ok((Seq::empty(), pos + 1))
        } else if b >= 0xc0 {
            if pos + 1 >= s.len() {
                Err(truncated(1, 0))
            } else {
                let off = (b as nat % 64) * 256 + s[pos as int + 1] as nat;
                if off >= s.len() {
                    Err(ErrorView::InvalidFormat("dns compression pointer out of range"@))
                } else if depth + 1 > 12 {
                    Err(ErrorView::InvalidFormat("dns compression pointer recursion limit"@))
                } else {
                    match dns_labels(s, off, depth + 1) {
                        Ok((ls, _)) => Ok((seq![join_dot(ls)], pos + 2)),
                        Err(e) => Err(e),
                    }
                }
            }
        } else if b > 63 {
            Err(ErrorView::InvalidFormat("dns label longer than 63 octets"@))
        } else if s.len() - (pos + 1) < b {
            Err(truncated(b as nat, (s.len() - (pos + 1)) as nat))
        } else {
            match dns_labels(s, (pos + 1 + b) as nat, depth) {
                Ok((rest, end)) => Ok(
                    (seq![label_text(s, pos as int + 1, b as int)] + rest, end),
                ),
                Err(e) => Err(e),
            }
        }
    }
}

/// The name at `pos`: its text and the position after it, or the error.
pub open spec fn dns_name(s: Seq<u8>, pos: nat, depth: nat) -> Result<(Seq<char>, nat), ErrorView> {
    if depth > 12 {
        Err(ErrorView::InvalidFormat("dns compression pointer recursion limit"@))
    } else {
        match dns_labels(s, pos, depth) {
            Ok((ls, end)) => Ok((join_dot(ls), end)),
            Err(e) => Err(e),
        }
    }
}

pub open spec fn prepend_labels(
    acc: Seq<Seq<char>>,
    r: Result<(Seq<Seq<char>>, nat), ErrorView>,
) -> Result<(Seq<Seq<char>>, nat), ErrorView> {
    match r {
        Ok((ls, end)) => Ok((acc + ls, end)),
        Err(e) => Err(e),
    }
}

pub proof fn lemma_dns_labels_end(s: Seq<u8>, pos: nat, depth: nat)
    ensures
        dns_labels(s, pos, depth) matches Ok((_, end)) ==> pos < end <= s.len(),
    decreases depth_room(depth), s.len() - pos,
{
    if pos < s.len() {
        let b = s[pos as int];
        if b != 0 && b < 0xc0 && b <= 63 && s.len() - (pos + 1) >= b {
            lemma_dns_labels_end(s, (pos + 1 + b) as nat, depth);
        }
    }
}

fn join_labels(labels: &Vec<String>) -> (r: String)
    ensures
        r@ == join_dot(labels.deep_view()),
{
    let mut out = String::new();
    let mut i: usize = 0;
    while i < labels.len()
        invariant
            i <= labels@.len(),
            out@ == join_dot(labels.deep_view().take(i as int)),
        decreases labels@.len() - i,
    {
        let ghost dv = labels.deep_view();
        assert(dv.take(i + 1).drop_last() =~= dv.take(i as int));
        assert(dv.take(i + 1).last() == labels@[i as int]@);
        if i > 0 {
            out.append(".");
        } else {
            assert(dv.take(i as int) =~= Seq::<Seq<char>>::empty());
            assert(dv.take(1) =~= seq![dv[0]]);
        }
        out.append(labels[i].as_str());
        i = i + 1;
    }
    assert(labels.deep_view().take(labels@.len() as int) =~= labels.deep_view());
    out
}

/// Reads a name; `reader` reads the bytes of `data` from `base` on.
fn read_name(data: &[u8], reader: &mut ByteReader<'_>, depth: u8, base: Ghost<nat>) -> (r:
    AegisResult<String>)
    requires
        base@ <= data@.len(),
        old(reader).bytes() == data@.skip(base@ as int),
        old(reader).valid(),
        data@.len() <= isize::MAX,
    ensures
        final(reader).bytes() == old(reader).bytes(),
        final(reader).valid(),
        match dns_name(data@, base@ + old(reader).at(), depth as nat) {
            Ok((name, end)) => r matches Ok(n) && n@ == name && base@ + final(reader).at() == end,
            Err(e) => r matches Err(x) && x@ == e,
        },
    decreases 13 - depth,
{
    if depth > DNS_POINTER_DEPTH {
        return Err(
            AegisError::InvalidFormat(
                String::from_str("dns compression pointer recursion limit"),
            ),
        );
    }
    let ghost start = base@ + reader.at();
    let mut labels: Vec<String> = Vec::new();
    assert(prepend_labels(Seq::empty(), dns_labels(data@, start, depth as nat)) == dns_labels(
        data@,
        start,
        depth as nat,
    )) by {
        match dns_labels(data@, start, depth as nat) {
            Ok((ls, end)) => {
                assert(Seq::<Seq<char>>::empty() + ls =~= ls);
            },
            Err(e) => {},
        }
    }
    loop
        invariant_except_break
            dns_labels(data@, start, depth as nat) == prepend_labels(
                labels.deep_view(),
                dns_labels(data@, base@ + reader.at(), depth as nat),
            ),
        invariant
            depth <= 12,
            start == base@ + old(reader).at(),
            old(reader).bytes() == data@.skip(base@ as int),
            base@ <= data@.len(),
            data@.len() <= isize::MAX,
            reader.bytes() == data@.skip(base@ as int),
            reader.valid(),
        ensures
            reader.bytes() == data@.skip(base@ as int),
            reader.valid(),
            match dns_labels(data@, start, depth as nat) {
                Ok((ls, end)) => ls == labels.deep_view() && base@ + reader.at() == end,
                Err(e) => false,
            },
        decreases data@.len() - (base@ + reader.at()),
    {
        let ghost pos = base@ + reader.at();
        let len = match reader.read_u8() {
            Ok(b) => b,
            Err(e) => {
                return Err(e);
            },
        };
        assert(data@.skip(base@ as int)[reader.at() - 1] == data@[pos as int]);
        if len == 0 {
            assert(labels.deep_view() + Seq::<Seq<char>>::empty() =~= labels.deep_view());
            break;
        }
        assert(len & 0xc0 == 0xc0 <==> len >= 0xc0) by (bit_vector);
        if len & 0xc0 == 0xc0 {
            let next = match reader.read_u8() {
                Ok(b) => b,
                Err(e) => {
                    return Err(e);
                },
            };
            assert(data@.skip(base@ as int)[reader.at() - 1] == data@[pos as int + 1]);
            let hi = len & 0x3f;
            assert(hi == len % 64) by (bit_vector)
                requires
                    hi == len & 0x3f,
            ;
            let offset = ((hi as usize) << 8) | next as usize;
            assert(offset == hi as usize * 256 + next as usize) by (bit_vector)
                requires
                    offset == ((hi as usize) << 8) | next as usize,
                    hi < 64,
            ;
            if offset >= data.len() {
                return Err(
                    AegisError::InvalidFormat(
                        String::from_str("dns compression pointer out of range"),
                    ),
                );
            }
            let mut fork = ByteReader::new(&data[offset..data.len()]);
            let name = match read_name(data, &mut fork, depth + 1, Ghost(offset as nat)) {
                Ok(n) => n,
                Err(e) => {
                    return Err(e);
                },
            };
            let ghost old_labels = labels.deep_view();
            labels.push(name);
            assert(labels.deep_view() =~= old_labels.push(name@));
            proof {
                match dns_labels(data@, offset as nat, (depth + 1) as nat) {
                    Ok((ls, _)) => {
                        assert(old_labels + seq![join_dot(ls)] =~= old_labels.push(join_dot(ls)));
                        assert(labels.deep_view() + Seq::<Seq<char>>::empty() =~= labels.deep_view());
                    },
                    Err(e) => {},
                }
            }
            break;
        }
        if len > 63 {
            return Err(
                AegisError::InvalidFormat(String::from_str("dns label longer than 63 octets")),
            );
        }
        let raw = match reader.take(len as usize) {
            Ok(s) => s,
            Err(e) => {
                return Err(e);
            },
        };
        assert(raw@ =~= data@.subrange(pos as int + 1, pos + 1 + len));
        let decoded = string_from_utf8_lossy(raw);
        let chars = chars_of(decoded.as_str());
        let label = lower_string(chars.as_slice());
        let ghost old_labels = labels.deep_view();
        labels.push(label);
        assert(labels.deep_view() =~= old_labels.push(label_text(data@, pos as int + 1, len as int)));
        proof {
            match dns_labels(data@, base@ + reader.at(), depth as nat) {
                Ok((rest, end)) => {
                    assert(old_labels + (seq![label_text(data@, pos as int + 1, len as int)] + rest)
                        =~= labels.deep_view() + rest);
                },
                Err(e) => {},
            }
        }
    }
    Ok(join_labels(&labels))
}

pub ghost struct DnsView {
    pub header: (u16, u16, u16, u16, u16, u16),
    pub questions: Seq<QuestionView>,
    pub answers: Seq<RecordView>,
    pub authorities: Seq<RecordView>,
    pub additionals: Seq<RecordView>,
}

/// The error for a read of `k` bytes at `p`, if fewer remain.
pub open spec fn short_read(s: Seq<u8>, p: nat, k: nat) -> bool {
    s.len() < p + k
}

pub open spec fn short_error(s: Seq<u8>, p: nat, k: nat) -> ErrorView {
    truncated(k, (s.len() - p) as nat)
}

/// One question at `pos`.
pub open spec fn dns_question_at(s: Seq<u8>, pos: nat) -> Result<(QuestionView, nat), ErrorView> {
    match dns_name(s, pos, 0) {
        Err(e) => Err(e),
        Ok((name, p)) => if short_read(s, p, 2) {
            Err(short_error(s, p, 2))
        } else if short_read(s, p + 2, 2) {
            Err(short_error(s, p + 2, 2))
        } else {
            Ok(
                (
                    QuestionView {
                        name,
                        qtype: be16_at(s, p as int) as u16,
                        qclass: be16_at(s, p as int + 2) as u16,
                    },
                    p + 4,
                ),
            )
        },
    }
}

/// One resource record at `pos`; its data is skipped.
pub open spec fn dns_record_at(s: Seq<u8>, pos: nat) -> Result<(RecordView, nat), ErrorView> {
    match dns_name(s, pos, 0) {
        Err(e) => Err(e),
        Ok((name, p)) => if short_read(s, p, 2) {
            Err(short_error(s, p, 2))
        } else if short_read(s, p + 2, 2) {
            Err(short_error(s, p + 2, 2))
        } else if short_read(s, p + 4, 4) {
            Err(short_error(s, p + 4, 4))
        } else if short_read(s, p + 8, 2) {
            Err(short_error(s, p + 8, 2))
        } else {
            let dl = be16_at(s, p as int + 8);
            if short_read(s, p + 10, dl) {
                Err(short_error(s, p + 10, dl))
            } else {
                Ok(
                    (
                        RecordView {
                            name,
                            rrtype: be16_at(s, p as int) as u16,
                            class: be16_at(s, p as int + 2) as u16,
                            ttl: be32_at(s, p as int + 4) as u32,
                            data_len: dl as u16,
                        },
                        p + 10 + dl,
                    ),
                )
            }
        },
    }
}

pub open spec fn dns_questions(s: Seq<u8>, pos: nat, n: nat) -> Result<(Seq<QuestionView>, nat), ErrorView>
    decreases n,
{
    if n == 0 {
        Ok((Seq::empty(), pos))
    } else {
        match dns_question_at(s, pos) {
            Err(e) => Err(e),
            Ok((q, p)) => match dns_questions(s, p, (n - 1) as nat) {
                Ok((qs, end)) => Ok((seq![q] + qs, end)),
                Err(e) => Err(e),
            },
        }
    }
}

pub open spec fn dns_records(s: Seq<u8>, pos: nat, n: nat) -> Result<(Seq<RecordView>, nat), ErrorView>
    decreases n,
{
    if n == 0 {
        Ok((Seq::empty(), pos))
    } else {
        match dns_record_at(s, pos) {
            Err(e) => Err(e),
            Ok((r, p)) => match dns_records(s, p, (n - 1) as nat) {
                Ok((rs, end)) => Ok((seq![r] + rs, end)),
                Err(e) => Err(e),
            },
        }
    }
}

pub open spec fn prepend_items<T>(acc: Seq<T>, r: Result<(Seq<T>, nat), ErrorView>) -> Result<
    (Seq<T>, nat),
    ErrorView,
> {
    match r {
        Ok((xs, end)) => Ok((acc + xs, end)),
        Err(e) => Err(e),
    }
}

pub open spec fn min_nat(a: nat, b: nat) -> nat {
    if a < b {
        a
    } else {
        b
    }
}

/// What parsing a DNS message gives, or the error.
pub open spec fn spec_dns(s: Seq<u8>) -> Result<DnsView, ErrorView> {
    if s.len() < 12 {
        Err(truncated(12, s.len()))
    } else {
        let h = (
            be16_at(s, 0) as u16,
            be16_at(s, 2) as u16,
            be16_at(s, 4) as u16,
            be16_at(s, 6) as u16,
            be16_at(s, 8) as u16,
            be16_at(s, 10) as u16,
        );
        match dns_questions(s, 12, min_nat(h.2 as nat, 64)) {
            Err(e) => Err(e),
            Ok((qs, p1)) => match dns_records(s, p1, min_nat(h.3 as nat, 128)) {
                Err(e) => Err(e),
                Ok((an, p2)) => match dns_records(s, p2, min_nat(h.4 as nat, 128)) {
                    Err(e) => Err(e),
                    Ok((ns, p3)) => match dns_records(s, p3, min_nat(h.5 as nat, 128)) {
                        Err(e) => Err(e),
                        Ok((ar, _)) => Ok(
                            DnsView {
                                header: h,
                                questions: qs,
                                answers: an,
                                authorities: ns,
                                additionals: ar,
                            },
                        ),
                    },
                },
            },
        }
    }
}

fn read_question(data: &[u8], reader: &mut ByteReader<'_>) -> (r: AegisResult<DnsQuestion>)
    requires
        old(reader).bytes() == data@,
        old(reader).valid(),
        data@.len() <= isize::MAX,
    ensures
        final(reader).bytes() == data@,
        final(reader).valid(),
        match dns_question_at(data@, old(reader).at()) {
            Ok((q, end)) => r matches Ok(x) && x@ == q && final(reader).at() == end,
            Err(e) => r matches Err(x) && x@ == e,
        },
{
    assert(data@.skip(0) =~= data@);
    let name = read_name(data, reader, 0, Ghost(0));
    let name = match name {
        Ok(n) => n,
        Err(e) => {
            return Err(e);
        },
    };
    let qtype = reader.read_u16_be()?;
    let qclass = reader.read_u16_be()?;
    Ok(DnsQuestion { name, qtype, qclass })
}

fn read_record(data: &[u8], reader: &mut ByteReader<'_>) -> (r: AegisResult<DnsRecord>)
    requires
        old(reader).bytes() == data@,
        old(reader).valid(),
        data@.len() <= isize::MAX,
    ensures
        final(reader).bytes() == data@,
        final(reader).valid(),
        match dns_record_at(data@, old(reader).at()) {
            Ok((q, end)) => r matches Ok(x) && x@ == q && final(reader).at() == end,
            Err(e) => r matches Err(x) && x@ == e,
        },
{
    assert(data@.skip(0) =~= data@);
    let name = read_name(data, reader, 0, Ghost(0));
    let name = match name {
        Ok(n) => n,
        Err(e) => {
            return Err(e);
        },
    };
    let rrtype = reader.read_u16_be()?;
    let class = reader.read_u16_be()?;
    let ttl = reader.read_u32_be()?;
    let data_len = reader.read_u16_be()?;
    reader.skip(data_len as usize)?;
    Ok(DnsRecord { name, rrtype, class, ttl, data_len })
}

fn read_records(data: &[u8], reader: &mut ByteReader<'_>, count: u16) -> (r: AegisResult<
    Vec<DnsRecord>,
>)
    requires
        old(reader).bytes() == data@,
        old(reader).valid(),
        data@.len() <= isize::MAX,
    ensures
        final(reader).bytes() == data@,
        final(reader).valid(),
        match dns_records(data@, old(reader).at(), min_nat(count as nat, 128)) {
            Ok((rs, end)) => r matches Ok(x) && x@.map_values(|d: DnsRecord| d@) == rs
                && final(reader).at() == end,
            Err(e) => r matches Err(x) && x@ == e,
        },
{
    let limit = if count < DNS_RECORD_LIMIT {
        count
    } else {
        DNS_RECORD_LIMIT
    };
    let ghost start = reader.at();
    let mut records: Vec<DnsRecord> = Vec::new();
    let mut i: u16 = 0;
    assert(prepend_items(Seq::<RecordView>::empty(), dns_records(data@, start, limit as nat))
        == dns_records(data@, start, limit as nat)) by {
        match dns_records(data@, start, limit as nat) {
            Ok((xs, e)) => {
                assert(Seq::<RecordView>::empty() + xs =~= xs);
            },
            Err(e) => {},
        }
    }
    while i < limit
        invariant
            i <= limit,
            start == old(reader).at(),
            old(reader).bytes() == data@,
            limit as nat == min_nat(count as nat, 128),
            reader.bytes() == data@,
            reader.valid(),
            data@.len() <= isize::MAX,
            dns_records(data@, start, limit as nat) == prepend_items(
                records@.map_values(|d: DnsRecord| d@),
                dns_records(data@, reader.at(), (limit - i) as nat),
            ),
        decreases limit - i,
    {
        let ghost before = records@.map_values(|d: DnsRecord| d@);
        let rec = read_record(data, reader);
        let rec = match rec {
            Ok(x) => x,
            Err(e) => {
                return Err(e);
            },
        };
        let ghost rv = rec@;
        records.push(rec);
        assert(records@.map_values(|d: DnsRecord| d@) =~= before.push(rv));
        proof {
            match dns_records(data@, reader.at(), (limit - i - 1) as nat) {
                Ok((xs, e)) => {
                    assert(before + (seq![rv] + xs) =~= before.push(rv) + xs);
                },
                Err(e) => {},
            }
        }
        i = i + 1;
    }
    proof {
        match dns_records(data@, reader.at(), 0) {
            Ok((xs, e)) => {
                assert(xs =~= Seq::<RecordView>::empty());
                assert(records@.map_values(|d: DnsRecord| d@) + xs =~= records@.map_values(
                    |d: DnsRecord| d@,
                ));
            },
            Err(e) => {},
        }
    }
    Ok(records)
}

/// The question's name with the mnemonic of its type.
pub open spec fn question_tag(q: QuestionView) -> Seq<char> {
    q.name + ":"@ + spec_dns_record_name(q.qtype)
}

/// Items joined with commas.
pub open spec fn join_comma(items: Seq<Seq<char>>) -> Seq<char>
    decreases items.len(),
{
    if items.len() == 0 {
        Seq::empty()
    } else if items.len() == 1 {
        items[0]
    } else {
        join_comma(items.drop_last()) + ","@ + items.last()
    }
}

impl DnsMessage {
    /// Parses a DNS message: the header, up to 64 questions and up to 128 records in each
    /// section, following compression pointers to a depth of 12.
    pub fn parse(data: &[u8]) -> (r: AegisResult<Self>)
        requires
            data@.len() <= isize::MAX,
        ensures
            match spec_dns(data@) {
                Ok(v) => r matches Ok(m) && {
                    &&& (m.header.id, m.header.flags, m.header.qdcount, m.header.ancount,
                        m.header.nscount, m.header.arcount) == v.header
                    &&& m.questions@.map_values(|q: DnsQuestion| q@) == v.questions
                    &&& m.answers@.map_values(|d: DnsRecord| d@) == v.answers
                    &&& m.authorities@.map_values(|d: DnsRecord| d@) == v.authorities
                    &&& m.additionals@.map_values(|d: DnsRecord| d@) == v.additionals
                },
                Err(e) => r matches Err(x) && x@ == e,
            },
    {
        let mut reader = ByteReader::new(data);
        let n = data.len();
        if n < 12 {
            return Err(AegisError::Truncated { needed: 12, available: n });
        }
        let id = reader.read_u16_be()?;
        let flags = reader.read_u16_be()?;
        let qdcount = reader.read_u16_be()?;
        let ancount = reader.read_u16_be()?;
        let nscount = reader.read_u16_be()?;
        let arcount = reader.read_u16_be()?;
        let header = DnsHeader { id, flags, qdcount, ancount, nscount, arcount };
        let limit = if qdcount < DNS_QUESTION_LIMIT {
            qdcount
        } else {
            DNS_QUESTION_LIMIT
        };
        let mut questions: Vec<DnsQuestion> = Vec::new();
        let mut i: u16 = 0;
        assert(prepend_items(Seq::<QuestionView>::empty(), dns_questions(data@, 12, limit as nat))
            == dns_questions(data@, 12, limit as nat)) by {
            match dns_questions(data@, 12, limit as nat) {
                Ok((xs, e)) => {
                    assert(Seq::<QuestionView>::empty() + xs =~= xs);
                },
                Err(e) => {},
            }
        }
        while i < limit
            invariant
                i <= limit,
                data@.len() >= 12,
                limit as nat == min_nat(be16_at(data@, 4), 64),
                reader.bytes() == data@,
                reader.valid(),
                data@.len() <= isize::MAX,
                dns_questions(data@, 12, limit as nat) == prepend_items(
                    questions@.map_values(|q: DnsQuestion| q@),
                    dns_questions(data@, reader.at(), (limit - i) as nat),
                ),
            decreases limit - i,
        {
            let ghost before = questions@.map_values(|q: DnsQuestion| q@);
            let q = read_question(data, &mut reader);
            let q = match q {
                Ok(x) => x,
                Err(e) => {
                    return Err(e);
                },
            };
            let ghost qv = q@;
            questions.push(q);
            assert(questions@.map_values(|q: DnsQuestion| q@) =~= before.push(qv));
            proof {
                match dns_questions(data@, reader.at(), (limit - i - 1) as nat) {
                    Ok((xs, e)) => {
                        assert(before + (seq![qv] + xs) =~= before.push(qv) + xs);
                    },
                    Err(e) => {},
                }
            }
            i = i + 1;
        }
        proof {
            match dns_questions(data@, reader.at(), 0) {
                Ok((xs, e)) => {
                    assert(questions@.map_values(|q: DnsQuestion| q@) + xs =~= questions@.map_values(
                        |q: DnsQuestion| q@,
                    ));
                },
                Err(e) => {},
            }
        }
        let answers = read_records(data, &mut reader, ancount)?;
        let authorities = read_records(data, &mut reader, nscount)?;
        let additionals = read_records(data, &mut reader, arcount)?;
        Ok(DnsMessage { header, questions, answers, authorities, additionals })
    }

    /// The names asked about, in order.
    pub fn queried_names(&self) -> (r: Vec<String>)
        ensures
            r.deep_view() == self.questions@.map_values(|q: DnsQuestion| q.name@),
    {
        let mut out: Vec<String> = Vec::new();
        let mut i: usize = 0;
        while i < self.questions.len()
            invariant
                i <= self.questions@.len(),
                out.deep_view() == self.questions@.take(i as int).map_values(
                    |q: DnsQuestion| q.name@,
                ),
            decreases self.questions@.len() - i,
        {
            let name = self.questions[i].name.clone();
            let ghost before = out.deep_view();
            let ghost nv = name@;
            out.push(name);
            assert(out.deep_view() =~= before.push(nv));
            assert(out.deep_view() =~= self.questions@.take(i + 1).map_values(
                |q: DnsQuestion| q.name@,
            ));
            i = i + 1;
        }
        assert(self.questions@.take(self.questions@.len() as int) =~= self.questions@);
        out
    }

    /// `dns id=<id> q=<qdcount> an=<ancount> [name:TYPE,...]`.
    pub fn summary(&self) -> (r: String)
        ensures
            r@ == "dns id="@ + dec(self.header.id as nat) + " q="@ + dec(
                self.header.qdcount as nat,
            ) + " an="@ + dec(self.header.ancount as nat) + " ["@ + join_comma(
                self.questions@.map_values(|q: DnsQuestion| question_tag(q@)),
            ) + "]"@,
    {
        let mut names = String::new();
        let mut i: usize = 0;
        let ghost tags = self.questions@.map_values(|q: DnsQuestion| question_tag(q@));
        while i < self.questions.len()
            invariant
                i <= self.questions@.len(),
                tags == self.questions@.map_values(|q: DnsQuestion| question_tag(q@)),
                names@ == join_comma(tags.take(i as int)),
            decreases self.questions@.len() - i,
        {
            let q = &self.questions[i];
            assert(tags.take(i + 1).drop_last() =~= tags.take(i as int));
            assert(tags.take(i + 1).last() == question_tag(q@));
            let ghost before = names@;
            if i > 0 {
                names.append(",");
            } else {
                assert(tags.take(1) =~= seq![tags[0]]);
            }
            names.append(q.name.as_str());
            names.append(":");
            names.append(dns_record_name(q.qtype));
            assert(i > 0 ==> names@ =~= before + ","@ + question_tag(q@));
            assert(i == 0 ==> names@ =~= question_tag(q@));
            i = i + 1;
        }
        assert(tags.take(tags.len() as int) =~= tags);
        let mut out = String::from_str("dns id=");
        push_dec(&mut out, self.header.id as u64);
        out.append(" q=");
        push_dec(&mut out, self.header.qdcount as u64);
        out.append(" an=");
        push_dec(&mut out, self.header.ancount as u64);
        out.append(" [");
        out.append(names.as_str());
        out.append("]");
        out
    }
}

} // verus!
