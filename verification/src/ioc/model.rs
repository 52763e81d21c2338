use vstd::prelude::*;
use vstd::string::*;
use crate::common::ip::{CidrBlock, Ipv4AddrExt, ip_text};
use crate::common::status::{MatchDisposition, Severity};
use crate::common::text::{chars_of, dec, lower_seq, lower_string, push_dec};

verus! {

/// An indicator of compromise.
#[derive(Debug, Clone, PartialEq, Eq, Hash)]
pub enum IocKind {
    Ip(Ipv4AddrExt),
    Cidr(CidrBlock),
    Domain(String),
    Url(String),
    Hash { algorithm: String, value: String },
}

/// An indicator with what to do about it and where it came from.
#[derive(Debug, Clone, PartialEq, Eq)]
pub struct IocRecord {
    pub kind: IocKind,
    pub disposition: MatchDisposition,
    pub severity: Severity,
    pub confidence: u8,
    pub source: Option<String>,
    pub tags: Vec<String>,
}

/// Indicators, each key once, and the keys that came again.
#[derive(Debug, Clone, PartialEq, Eq)]
pub struct IocSet {
    pub records: Vec<IocRecord>,
    pub duplicates: Vec<String>,
}

pub ghost enum KindView {
    Ip(u32),
    Cidr(u32, u8),
    Domain(Seq<char>),
    Url(Seq<char>),
    Hash(Seq<char>, Seq<char>),
}

pub ghost struct RecordView {
    pub kind: KindView,
    pub disposition: MatchDisposition,
    pub severity: Severity,
    pub confidence: u8,
    pub source: Option<Seq<char>>,
    pub tags: Seq<Seq<char>>,
}

pub ghost struct SetView {
    pub records: Seq<RecordView>,
    pub duplicates: Seq<Seq<char>>,
}

impl View for IocKind {
    type V = KindView;

    open spec fn view(&self) -> KindView {
        match self {
            IocKind::Ip(ip) => KindView::Ip(ip.0),
            IocKind::Cidr(c) => KindView::Cidr(c.network.0, c.prefix),
            IocKind::Domain(d) => KindView::Domain(d@),
            IocKind::Url(u) => KindView::Url(u@),
            IocKind::Hash { algorithm, value } => KindView::Hash(algorithm@, value@),
        }
    }
}

impl View for IocRecord {
    type V = RecordView;

    open spec fn view(&self) -> RecordView {
        RecordView {
            kind: self.kind@,
            disposition: self.disposition,
            severity: self.severity,
            confidence: self.confidence,
            source: match self.source {
                Some(s) => Some(s@),
                None => None,
            },
            tags: self.tags.deep_view(),
        }
    }
}

impl View for IocSet {
    type V = SetView;

    open spec fn view(&self) -> SetView {
        SetView {
            records: self.records@.map_values(|r: IocRecord| r@),
            duplicates: self.duplicates.deep_view(),
        }
    }
}

/// The key that identifies an indicator: its kind and its text, lower-cased.
pub open spec fn kind_key(k: KindView) -> Seq<char> {
    match k {
        KindView::Ip(ip) => "ip:"@ + ip_text(ip),
        KindView::Cidr(n, p) => "cidr:"@ + ip_text(n) + "/"@ + dec(p as nat),
        KindView::Domain(d) => "domain:"@ + lower_seq(d),
        KindView::Url(u) => "url:"@ + lower_seq(u),
        KindView::Hash(a, v) => "hash:"@ + lower_seq(a) + ":"@ + lower_seq(v),
    }
}

/// Some record already has the key.
pub open spec fn has_key(records: Seq<RecordView>, key: Seq<char>) -> bool {
    exists|i: int| 0 <= i < records.len() && kind_key((#[trigger] records[i]).kind) == key
}

/// No two records share a key.
pub open spec fn keys_distinct(records: Seq<RecordView>) -> bool {
    forall|i: int, j: int|
        0 <= i < j < records.len() ==> kind_key((#[trigger] records[i]).kind) != kind_key(
            (#[trigger] records[j]).kind,
        )
}

/// The set after adding a record: appended if its key is new, noted as a duplicate if not.
pub open spec fn set_add(s: SetView, r: RecordView) -> SetView {
    if has_key(s.records, kind_key(r.kind)) {
        SetView { duplicates: s.duplicates.push(kind_key(r.kind)), ..s }
    } else {
        SetView { records: s.records.push(r), ..s }
    }
}

pub open spec fn empty_set() -> SetView {
    SetView { records: Seq::empty(), duplicates: Seq::empty() }
}

fn push_lower(s: &mut String, t: &String)
    ensures
        final(s)@ == old(s)@ + lower_seq(t@),
{
    let v = chars_of(t.as_str());
    let l = lower_string(v.as_slice());
    s.append(l.as_str());
}

impl IocRecord {
    pub fn normalized_key(&self) -> (r: String)
        ensures
            r@ == kind_key(self.kind@),
    {
        match &self.kind {
            IocKind::Ip(ip) => {
                let mut s = String::from_str("ip:");
                let t = ip.to_string();
                s.append(t.as_str());
                s
            },
            IocKind::Cidr(cidr) => {
                let mut s = String::from_str("cidr:");
                let t = cidr.to_string();
                s.append(t.as_str());
                s
            },
            IocKind::Domain(domain) => {
                let mut s = String::from_str("domain:");
                push_lower(&mut s, domain);
                s
            },
            IocKind::Url(url) => {
                let mut s = String::from_str("url:");
                push_lower(&mut s, url);
                s
            },
            IocKind::Hash { algorithm, value } => {
                let mut s = String::from_str("hash:");
                push_lower(&mut s, algorithm);
                s.append(":");
                push_lower(&mut s, value);
                s
            },
        }
    }
}

impl Default for IocSet {
    fn default() -> (r: Self)
        ensures
            r@ == empty_set(),
    {
        let r = IocSet { records: Vec::new(), duplicates: Vec::new() };
        assert(r@.records =~= Seq::<RecordView>::empty());
        assert(r@.duplicates =~= Seq::<Seq<char>>::empty());
        r
    }
}

impl IocSet {
    /// Adds a record unless one with the same key is there; then the key is noted as a
    /// duplicate instead.
    pub fn add(&mut self, record: IocRecord)
        ensures
            final(self)@ == set_add(old(self)@, record@),
    {
        let key = record.normalized_key();
        let ghost rv = self@.records;
        let mut i: usize = 0;
        let mut found = false;
        while i < self.records.len()
            invariant
                i <= self.records@.len(),
                self.records@ == old(self).records@,
                self.duplicates == old(self).duplicates,
                rv == self@.records,
                key@ == kind_key(record.kind@),
                found ==> has_key(rv, key@),
                !found ==> forall|j: int| 0 <= j < i ==> kind_key((#[trigger] rv[j]).kind) != key@,
            decreases self.records@.len() - i,
        {
            let k = self.records[i].normalized_key();
            if k == key {
                found = true;
                assert(kind_key(rv[i as int].kind) == key@);
            }
            i = i + 1;
        }
        if found {
            let ghost before = self.duplicates.deep_view();
            let ghost kv = key@;
            self.duplicates.push(key);
            assert(self.duplicates.deep_view() =~= before.push(kv));
            assert(self@ =~= set_add(old(self)@, record@));
        } else {
            let ghost r = record@;
            self.records.push(record);
            assert(self@.records =~= rv.push(r));
            assert(self@ =~= set_add(old(self)@, r));
        }
    }
}

/// Adding a record to a set whose keys are distinct keeps them distinct; the set's
/// records only ever grow by a record with a new key.
pub proof fn law_add_keeps_keys_distinct(s: SetView, r: RecordView)
    requires
        keys_distinct(s.records),
    ensures
        keys_distinct(set_add(s, r).records),
        has_key(set_add(s, r).records, kind_key(r.kind)),
{
    let after = set_add(s, r).records;
    if !has_key(s.records, kind_key(r.kind)) {
        assert forall|i: int, j: int| 0 <= i < j < after.len() implies kind_key(
            (#[trigger] after[i]).kind,
        ) != kind_key((#[trigger] after[j]).kind) by {
            if j == s.records.len() {
                assert(after[i] == s.records[i]);
            } else {
                assert(after[i] == s.records[i] && after[j] == s.records[j]);
            }
        }
        assert(after[s.records.len() as int] == r);
    }
}

} // verus!
