use vstd::prelude::*;
use vstd::string::*;
use crate::common::counts::{bump_count, counts_of, keys_sorted, map_view, lemma_count_le_len};
use crate::common::text::{dec, push_dec};
use crate::packet::metadata::{MetaView, PacketMetadata, endpoint_text, extract_packet_metadata,
    spec_packet_metadata};

verus! {

/// Totals over the frames of a capture. Counts are kept in key order, each key once.
#[derive(Debug, Clone, PartialEq, Eq)]
pub struct PacketSummary {
    pub packet_count: usize,
    pub protocol_counts: Vec<(String, usize)>,
    pub endpoint_counts: Vec<(String, usize)>,
    pub dns_names: Vec<String>,
    pub warnings: Vec<String>,
    pub highest_exposure: u8,
}

pub open spec fn protocol_key(m: MetaView) -> Seq<char> {
    match m.protocol {
        Some(p) => p,
        None => "unknown"@,
    }
}

pub open spec fn protocol_keys(items: Seq<MetaView>) -> Seq<Seq<char>> {
    items.map_values(|m: MetaView| protocol_key(m))
}

pub open spec fn endpoint_keys(items: Seq<MetaView>) -> Seq<Seq<char>> {
    items.map_values(|m: MetaView| endpoint_text(m))
}

/// `acc` with `x` added unless it is already there.
pub open spec fn dedup_push(acc: Seq<Seq<char>>, x: Seq<char>) -> Seq<Seq<char>> {
    if acc.contains(x) {
        acc
    } else {
        acc.push(x)
    }
}

pub open spec fn dedup_extend(acc: Seq<Seq<char>>, s: Seq<Seq<char>>) -> Seq<Seq<char>>
    decreases s.len(),
{
    if s.len() == 0 {
        acc
    } else {
        dedup_push(dedup_extend(acc, s.drop_last()), s.last())
    }
}

/// The DNS names of all frames, each once, in order of first appearance.
pub open spec fn summary_dns(items: Seq<MetaView>) -> Seq<Seq<char>>
    decreases items.len(),
{
    if items.len() == 0 {
        Seq::empty()
    } else {
        dedup_extend(summary_dns(items.drop_last()), items.last().dns_names)
    }
}

/// One warning line per note: `frame <index>: <note>`.
pub open spec fn warning_lines(m: MetaView) -> Seq<Seq<char>> {
    m.notes.map_values(|n: Seq<char>| "frame "@ + dec(m.frame_index as nat) + ": "@ + n)
}

pub open spec fn summary_warnings(items: Seq<MetaView>) -> Seq<Seq<char>>
    decreases items.len(),
{
    if items.len() == 0 {
        Seq::empty()
    } else {
        summary_warnings(items.drop_last()) + warning_lines(items.last())
    }
}

pub open spec fn max_exposure(items: Seq<MetaView>) -> u8
    decreases items.len(),
{
    if items.len() == 0 {
        0
    } else {
        let h = max_exposure(items.drop_last());
        if items.last().exposure_score > h {
            items.last().exposure_score
        } else {
            h
        }
    }
}

fn contains_string(v: &Vec<String>, x: &String) -> (r: bool)
    ensures
        r == v.deep_view().contains(x@),
{
    let mut i: usize = 0;
    while i < v.len()
        invariant
            i <= v@.len(),
            forall|j: int| 0 <= j < i ==> v.deep_view()[j] != x@,
        decreases v@.len() - i,
    {
        if v[i] == *x {
            assert(v.deep_view()[i as int] == x@);
            return true;
        }
        i = i + 1;
    }
    false
}

fn add_names(dst: &mut Vec<String>, names: &Vec<String>)
    ensures
        final(dst).deep_view() == dedup_extend(old(dst).deep_view(), names.deep_view()),
{
    let ghost start = dst.deep_view();
    let mut i: usize = 0;
    while i < names.len()
        invariant
            i <= names@.len(),
            dst.deep_view() == dedup_extend(start, names.deep_view().take(i as int)),
        decreases names@.len() - i,
    {
        let ghost nd = names.deep_view();
        assert(nd.take(i + 1).drop_last() =~= nd.take(i as int));
        assert(nd.take(i + 1).last() == names@[i as int]@);
        if !contains_string(dst, &names[i]) {
            let ghost before = dst.deep_view();
            let c = names[i].clone();
            dst.push(c);
            assert(dst.deep_view() =~= before.push(names@[i as int]@));
        }
        i = i + 1;
    }
    assert(names.deep_view().take(names@.len() as int) =~= names.deep_view());
}

fn add_warnings(dst: &mut Vec<String>, item: &PacketMetadata)
    ensures
        final(dst).deep_view() == old(dst).deep_view() + warning_lines(item@),
{
    let ghost start = dst.deep_view();
    let mut i: usize = 0;
    while i < item.notes.len()
        invariant
            i <= item.notes@.len(),
            dst.deep_view() == start + warning_lines(item@).take(i as int),
        decreases item.notes@.len() - i,
    {
        let mut line = String::from_str("frame ");
        push_dec(&mut line, item.frame_index as u64);
        line.append(": ");
        line.append(item.notes[i].as_str());
        let ghost before = dst.deep_view();
        let ghost lv = line@;
        dst.push(line);
        assert(dst.deep_view() =~= before.push(lv));
        assert(warning_lines(item@).take(i + 1) =~= warning_lines(item@).take(i as int).push(lv));
        i = i + 1;
    }
    assert(warning_lines(item@).take(item.notes@.len() as int) =~= warning_lines(item@));
}

fn protocol_key_of(item: &PacketMetadata) -> (r: String)
    ensures
        r@ == protocol_key(item@),
{
    match &item.protocol {
        Some(p) => p.clone(),
        None => String::from_str("unknown"),
    }
}

/// Counts protocols and endpoints, collects DNS names (each once) and notes, and keeps the
/// highest exposure score.
pub fn summarize_metadata(items: &[PacketMetadata]) -> (r: PacketSummary)
    ensures
        ({
            let v = items@.map_values(|m: PacketMetadata| m@);
            &&& r.packet_count == items@.len()
            &&& counts_of(map_view(r.protocol_counts@), protocol_keys(v))
            &&& counts_of(map_view(r.endpoint_counts@), endpoint_keys(v))
            &&& r.dns_names.deep_view() == summary_dns(v)
            &&& r.warnings.deep_view() == summary_warnings(v)
            &&& r.highest_exposure == max_exposure(v)
        }),
{
    let ghost v = items@.map_values(|m: PacketMetadata| m@);
    let mut protocol_counts: Vec<(String, usize)> = Vec::new();
    let mut endpoint_counts: Vec<(String, usize)> = Vec::new();
    let mut dns_names: Vec<String> = Vec::new();
    let mut warnings: Vec<String> = Vec::new();
    let mut highest_exposure: u8 = 0;
    let mut i: usize = 0;
    assert(map_view(protocol_counts@) =~= Seq::<(Seq<char>, usize)>::empty());
    assert(map_view(endpoint_counts@) =~= Seq::<(Seq<char>, usize)>::empty());
    assert(protocol_keys(v.take(0)) =~= Seq::<Seq<char>>::empty());
    assert(endpoint_keys(v.take(0)) =~= Seq::<Seq<char>>::empty());
    assert(dns_names.deep_view() =~= Seq::<Seq<char>>::empty());
    assert(warnings.deep_view() =~= Seq::<Seq<char>>::empty());
    while i < items.len()
        invariant
            i <= items@.len(),
            v == items@.map_values(|m: PacketMetadata| m@),
            counts_of(map_view(protocol_counts@), protocol_keys(v.take(i as int))),
            counts_of(map_view(endpoint_counts@), endpoint_keys(v.take(i as int))),
            dns_names.deep_view() == summary_dns(v.take(i as int)),
            warnings.deep_view() == summary_warnings(v.take(i as int)),
            highest_exposure == max_exposure(v.take(i as int)),
        decreases items@.len() - i,
    {
        let item = &items[i];
        let ghost pre = v.take(i as int);
        let ghost post = v.take(i + 1);
        assert(post.drop_last() =~= pre);
        assert(post.last() == item@);
        assert(protocol_keys(post) =~= protocol_keys(pre).push(protocol_key(item@)));
        assert(endpoint_keys(post) =~= endpoint_keys(pre).push(endpoint_text(item@)));
        assert(protocol_keys(pre).len() == i);
        assert(endpoint_keys(pre).len() == i);
        bump_count(&mut protocol_counts, protocol_key_of(item), Ghost(protocol_keys(pre)));
        bump_count(&mut endpoint_counts, item.endpoint_key(), Ghost(endpoint_keys(pre)));
        add_names(&mut dns_names, &item.dns_names);
        add_warnings(&mut warnings, item);
        if item.exposure_score > highest_exposure {
            highest_exposure = item.exposure_score;
        }
        i = i + 1;
    }
    assert(v.take(items@.len() as int) =~= v);
    PacketSummary {
        packet_count: items.len(),
        protocol_counts,
        endpoint_counts,
        dns_names,
        warnings,
        highest_exposure,
    }
}

/// Reads a capture (or one frame) and summarizes it.
pub fn summarize_capture(data: &[u8]) -> (r: PacketSummary)
    requires
        data@.len() <= isize::MAX,
    ensures
        ({
            let v = spec_packet_metadata(data@);
            &&& r.packet_count == v.len()
            &&& counts_of(map_view(r.protocol_counts@), protocol_keys(v))
            &&& counts_of(map_view(r.endpoint_counts@), endpoint_keys(v))
            &&& r.dns_names.deep_view() == summary_dns(v)
            &&& r.warnings.deep_view() == summary_warnings(v)
            &&& r.highest_exposure == max_exposure(v)
        }),
{
    let meta = extract_packet_metadata(data);
    summarize_metadata(meta.as_slice())
}

/// Lines `  key: count`.
pub open spec fn count_lines(v: Seq<(Seq<char>, usize)>) -> Seq<char>
    decreases v.len(),
{
    if v.len() == 0 {
        Seq::empty()
    } else {
        count_lines(v.drop_last()) + "  "@ + v.last().0 + ": "@ + dec(v.last().1 as nat) + "\n"@
    }
}

/// Lines `  item`.
pub open spec fn item_lines(v: Seq<Seq<char>>) -> Seq<char>
    decreases v.len(),
{
    if v.len() == 0 {
        Seq::empty()
    } else {
        item_lines(v.drop_last()) + "  "@ + v.last() + "\n"@
    }
}

pub open spec fn summary_text(s: PacketSummary) -> Seq<char> {
    let ends = map_view(s.endpoint_counts@);
    "packets: "@ + dec(s.packet_count as nat) + "\n"@ + "protocols:\n"@ + count_lines(
        map_view(s.protocol_counts@),
    ) + "endpoints:\n"@ + count_lines(
        if ends.len() > 20 {
            ends.take(20)
        } else {
            ends
        },
    ) + (if s.dns_names@.len() > 0 {
        "dns:\n"@ + item_lines(s.dns_names.deep_view())
    } else {
        Seq::empty()
    }) + (if s.warnings@.len() > 0 {
        "warnings:\n"@ + item_lines(s.warnings.deep_view())
    } else {
        Seq::empty()
    }) + "highest exposure score: "@ + dec(s.highest_exposure as nat) + "\n"@
}

pub fn push_count_lines(out: &mut String, v: &Vec<(String, usize)>, limit: usize)
    ensures
        final(out)@ == old(out)@ + count_lines(
            if map_view(v@).len() > limit {
                map_view(v@).take(limit as int)
            } else {
                map_view(v@)
            },
        ),
{
    let ghost start = out@;
    let ghost mv = map_view(v@);
    let n = if v.len() > limit {
        limit
    } else {
        v.len()
    };
    let mut i: usize = 0;
    while i < n
        invariant
            n <= v@.len(),
            mv == map_view(v@),
            i <= n,
            out@ == start + count_lines(mv.take(i as int)),
        decreases n - i,
    {
        assert(mv.take(i + 1).drop_last() =~= mv.take(i as int));
        assert(mv.take(i + 1).last() == (v@[i as int].0@, v@[i as int].1));
        let ghost before = out@;
        out.append("  ");
        out.append(v[i].0.as_str());
        out.append(": ");
        push_dec(out, v[i].1 as u64);
        out.append("\n");
        assert(out@ =~= before + "  "@ + v@[i as int].0@ + ": "@ + dec(v@[i as int].1 as nat) + "\n"@);
        i = i + 1;
    }
    assert(mv.take(n as int) =~= if mv.len() > limit {
        mv.take(limit as int)
    } else {
        mv
    });
}

pub fn push_item_lines(out: &mut String, v: &Vec<String>)
    ensures
        final(out)@ == old(out)@ + item_lines(v.deep_view()),
{
    let ghost start = out@;
    let ghost dv = v.deep_view();
    let mut i: usize = 0;
    while i < v.len()
        invariant
            dv == v.deep_view(),
            i <= v@.len(),
            out@ == start + item_lines(dv.take(i as int)),
        decreases v@.len() - i,
    {
        assert(dv.take(i + 1).drop_last() =~= dv.take(i as int));
        assert(dv.take(i + 1).last() == v@[i as int]@);
        let ghost before = out@;
        out.append("  ");
        out.append(v[i].as_str());
        out.append("\n");
        assert(out@ =~= before + "  "@ + v@[i as int]@ + "\n"@);
        i = i + 1;
    }
    assert(dv.take(v@.len() as int) =~= dv);
}

impl PacketSummary {
    /// A text report: counts in key order, the first 20 endpoints, DNS names, warnings and
    /// the highest exposure score. The count lists are maps: sorted by key, each key once.
    pub fn render_text(&self) -> (r: String)
        requires
            keys_sorted(map_view(self.protocol_counts@)),
            keys_sorted(map_view(self.endpoint_counts@)),
        ensures
            r@ == summary_text(*self),
    {
        let mut out = String::from_str("packets: ");
        push_dec(&mut out, self.packet_count as u64);
        out.append("\n");
        out.append("protocols:\n");
        push_count_lines(&mut out, &self.protocol_counts, self.protocol_counts.len());
        proof {
            assert(map_view(self.protocol_counts@).len() == self.protocol_counts@.len());
        }
        out.append("endpoints:\n");
        push_count_lines(&mut out, &self.endpoint_counts, 20);
        if self.dns_names.len() > 0 {
            out.append("dns:\n");
            push_item_lines(&mut out, &self.dns_names);
        }
        if self.warnings.len() > 0 {
            out.append("warnings:\n");
            push_item_lines(&mut out, &self.warnings);
        }
        out.append("highest exposure score: ");
        push_dec(&mut out, self.highest_exposure as u64);
        out.append("\n");
        assert(out@ =~= summary_text(*self));
        out
    }
}

} // verus!
