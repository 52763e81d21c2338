use vstd::prelude::*;
use vstd::string::*;
use crate::common::ip::{CidrBlock, Ipv4AddrExt, spec_parse_cidr, spec_parse_ipv4};
use crate::common::status::{MatchDisposition, Severity};
use crate::common::strings::{spec_split_csv, split_csv_line};
use crate::common::text::{
    CharSet, before_char, before_char_exec, chars_of, contains_seq, contains_str, dec, has_char,
    lines, lines_of, lower_chars, lower_seq, push_dec, split_set, split_slice, split_words,
    string_of, trim, trim_set, trim_slice, trim_ws, words, chars_eq, eq_str,
};
use crate::ioc::classify::{CandidateKind, classify_candidate, confidence_for_candidate,
    spec_classify, spec_confidence};
use crate::ioc::model::{IocKind, IocRecord, IocSet, KindView, RecordView, SetView, empty_set,
    set_add, has_key, keys_distinct, kind_key, law_add_keeps_keys_distinct};
use crate::ioc::normalize::{normalize_domain, normalize_hash, normalize_url,
    spec_normalize_domain, spec_normalize_hash, spec_normalize_url};

verus! {

/// The line with any `#` comment cut off, trimmed.
pub open spec fn clean_line(raw: Seq<char>) -> Seq<char> {
    trim(before_char(raw, '#'))
}

/// The tokens of a line: comma-separated fields if it has a comma, else its words with
/// `;` and `,` trimmed from both ends.
pub open spec fn line_tokens(line: Seq<char>) -> Seq<Seq<char>> {
    if line.contains(',') {
        spec_split_csv(line)
    } else {
        words(line).map_values(|w: Seq<char>| trim_set(w, CharSet::Two(';', ',')))
    }
}

pub open spec fn spec_disposition(context: Seq<char>) -> MatchDisposition {
    let l = lower_seq(context);
    if contains_seq(l, "allow"@) || contains_seq(l, "safe"@) {
        MatchDisposition::Allowed
    } else if contains_seq(l, "block"@) || contains_seq(l, "deny"@) || contains_seq(
        l,
        "malicious"@,
    ) {
        MatchDisposition::Blocked
    } else {
        MatchDisposition::Observed
    }
}

pub open spec fn spec_severity(context: Seq<char>, confidence: u8) -> Severity {
    let l = lower_seq(context);
    if contains_seq(l, "critical"@) || contains_seq(l, "ransom"@) {
        Severity::Critical
    } else if contains_seq(l, "high"@) || confidence > 90 {
        Severity::High
    } else if contains_seq(l, "medium"@) || confidence > 65 {
        Severity::Medium
    } else if contains_seq(l, "low"@) {
        Severity::Low
    } else {
        Severity::Info
    }
}

/// The words of a context (runs of letters, digits and `-`), lower-cased.
pub open spec fn context_words(context: Seq<char>) -> Seq<Seq<char>> {
    split_set(context, CharSet::NonWord).map_values(|w: Seq<char>| lower_seq(w))
}

/// `t` if it is among the words.
pub open spec fn tag_if(ws: Seq<Seq<char>>, t: Seq<char>) -> Seq<Seq<char>> {
    if ws.contains(t) {
        seq![t]
    } else {
        Seq::empty()
    }
}

/// The recognized tags (allow, block, botnet, c2, malware, phishing, ransomware, scanner)
/// among the words of the context: sorted, each once.
pub open spec fn spec_tags(context: Seq<char>) -> Seq<Seq<char>> {
    let ws = context_words(context);
    tag_if(ws, "allow"@) + tag_if(ws, "block"@) + tag_if(ws, "botnet"@) + tag_if(ws, "c2"@)
        + tag_if(ws, "malware"@) + tag_if(ws, "phishing"@) + tag_if(ws, "ransomware"@) + tag_if(
        ws,
        "scanner"@,
    )
}

/// The indicator a token names, as its kind says.
pub open spec fn spec_token_kind(token: Seq<char>) -> Option<KindView> {
    match spec_classify(token) {
        CandidateKind::Ip => match spec_parse_ipv4(token) {
            Ok(x) => Some(KindView::Ip(x)),
            Err(_) => None,
        },
        CandidateKind::Cidr => match spec_parse_cidr(token) {
            Ok((n, p)) => Some(KindView::Cidr(n, p)),
            Err(_) => None,
        },
        CandidateKind::Domain => match spec_normalize_domain(token) {
            Some(d) => Some(KindView::Domain(d)),
            None => None,
        },
        CandidateKind::Url => match spec_normalize_url(token) {
            Some(u) => Some(KindView::Url(u)),
            None => None,
        },
        CandidateKind::Hash => match spec_normalize_hash(token) {
            Some((a, v)) => Some(KindView::Hash(a, v)),
            None => None,
        },
        CandidateKind::Unknown => None,
    }
}

/// The record a token on line `line_no` with the given context gives, if any.
pub open spec fn spec_parse_token(token: Seq<char>, context: Seq<char>, line_no: nat) -> Option<
    RecordView,
> {
    match spec_token_kind(token) {
        None => None,
        Some(k) => {
            let c = spec_confidence(spec_classify(token), context);
            Some(
                RecordView {
                    kind: k,
                    disposition: spec_disposition(context),
                    severity: spec_severity(context, c),
                    confidence: c,
                    source: Some("line:"@ + dec(line_no)),
                    tags: spec_tags(context),
                },
            )
        },
    }
}

/// The set after the records of the tokens of one line.
pub open spec fn add_tokens(s: SetView, tokens: Seq<Seq<char>>, context: Seq<char>, line_no: nat) -> SetView
    decreases tokens.len(),
{
    if tokens.len() == 0 {
        s
    } else {
        let prev = add_tokens(s, tokens.drop_last(), context, line_no);
        match spec_parse_token(tokens.last(), context, line_no) {
            Some(r) => set_add(prev, r),
            None => prev,
        }
    }
}

/// The set after the given lines, line `i` being number `i + 1`.
pub open spec fn add_lines(ls: Seq<Seq<char>>) -> SetView
    decreases ls.len(),
{
    if ls.len() == 0 {
        empty_set()
    } else {
        let prev = add_lines(ls.drop_last());
        let line = clean_line(ls.last());
        if line.len() == 0 {
            prev
        } else {
            add_tokens(prev, line_tokens(line), line, ls.len())
        }
    }
}

/// What `parse_ioc_text` gives.
pub open spec fn spec_parse_ioc_text(input: Seq<char>) -> SetView {
    add_lines(lines(input))
}

fn disposition_from_context(context: &[char]) -> (r: MatchDisposition)
    ensures
        r == spec_disposition(context@),
{
    let lower = lower_chars(context);
    let l = lower.as_slice();
    if contains_str(l, "allow") || contains_str(l, "safe") {
        MatchDisposition::Allowed
    } else if contains_str(l, "block") || contains_str(l, "deny") || contains_str(l, "malicious") {
        MatchDisposition::Blocked
    } else {
        MatchDisposition::Observed
    }
}

fn severity_from_context(context: &[char], confidence: u8) -> (r: Severity)
    ensures
        r == spec_severity(context@, confidence),
{
    let lower = lower_chars(context);
    let l = lower.as_slice();
    if contains_str(l, "critical") || contains_str(l, "ransom") {
        Severity::Critical
    } else if contains_str(l, "high") || confidence > 90 {
        Severity::High
    } else if contains_str(l, "medium") || confidence > 65 {
        Severity::Medium
    } else if contains_str(l, "low") {
        Severity::Low
    } else {
        Severity::Info
    }
}

fn words_contain(words: &Vec<Vec<char>>, t: &str) -> (r: bool)
    ensures
        r == words.deep_view().contains(t@),
{
    let tv = chars_of(t);
    let mut i: usize = 0;
    while i < words.len()
        invariant
            i <= words@.len(),
            tv@ == t@,
            forall|j: int| 0 <= j < i ==> words.deep_view()[j] != t@,
        decreases words@.len() - i,
    {
        assert(words.deep_view()[i as int] =~= words@[i as int]@);
        if chars_eq(words[i].as_slice(), tv.as_slice()) {
            return true;
        }
        i = i + 1;
    }
    false
}

fn push_tag_if(out: &mut Vec<String>, words: &Vec<Vec<char>>, t: &str, acc: Ghost<Seq<Seq<char>>>)
    requires
        old(out).deep_view() == acc@,
    ensures
        final(out).deep_view() == acc@ + tag_if(words.deep_view(), t@),
{
    if words_contain(words, t) {
        let ghost before = out.deep_view();
        out.push(String::from_str(t));
        assert(out.deep_view() =~= before.push(t@));
        assert(acc@ + seq![t@] =~= before.push(t@));
    } else {
        assert(acc@ + Seq::<Seq<char>>::empty() =~= acc@);
    }
}

fn tags_from_context(context: &[char]) -> (r: Vec<String>)
    ensures
        r.deep_view() == spec_tags(context@),
{
    let parts = split_slice(context, CharSet::NonWord);
    let mut words: Vec<Vec<char>> = Vec::new();
    let mut i: usize = 0;
    while i < parts.len()
        invariant
            i <= parts@.len(),
            parts.deep_view() == split_set(context@, CharSet::NonWord),
            words.deep_view() == parts.deep_view().take(i as int).map_values(
                |w: Seq<char>| lower_seq(w),
            ),
        decreases parts@.len() - i,
    {
        let l = lower_chars(parts[i].as_slice());
        let ghost before = words.deep_view();
        let ghost lv = l@;
        assert(parts.deep_view()[i as int] =~= parts@[i as int]@);
        proof {
            crate::common::text::lemma_deep_chars(l);
        }
        words.push(l);
        assert(words.deep_view() =~= before.push(lv));
        assert(parts.deep_view().take(i + 1).map_values(|w: Seq<char>| lower_seq(w)) =~= before.push(
            lv,
        ));
        i = i + 1;
    }
    assert(parts.deep_view().take(parts@.len() as int) =~= parts.deep_view());
    let ghost ws = words.deep_view();
    assert(ws == context_words(context@));
    let mut out: Vec<String> = Vec::new();
    assert(out.deep_view() =~= Seq::<Seq<char>>::empty());
    let ghost a0 = out.deep_view();
    push_tag_if(&mut out, &words, "allow", Ghost(a0));
    let ghost a1 = out.deep_view();
    push_tag_if(&mut out, &words, "block", Ghost(a1));
    let ghost a2 = out.deep_view();
    push_tag_if(&mut out, &words, "botnet", Ghost(a2));
    let ghost a3 = out.deep_view();
    push_tag_if(&mut out, &words, "c2", Ghost(a3));
    let ghost a4 = out.deep_view();
    push_tag_if(&mut out, &words, "malware", Ghost(a4));
    let ghost a5 = out.deep_view();
    push_tag_if(&mut out, &words, "phishing", Ghost(a5));
    let ghost a6 = out.deep_view();
    push_tag_if(&mut out, &words, "ransomware", Ghost(a6));
    let ghost a7 = out.deep_view();
    push_tag_if(&mut out, &words, "scanner", Ghost(a7));
    assert(out.deep_view() =~= spec_tags(context@));
    out
}

/// Turns one token into a record: its kind and normalized value, with disposition,
/// confidence, severity and tags taken from the context, and `line:<n>` as source.
pub fn parse_ioc_token(token: &str, context: &str, line_no: usize) -> (r: Option<IocRecord>)
    ensures
        match spec_parse_token(token@, context@, line_no as nat) {
            Some(rv) => r matches Some(x) && x@ == rv,
            None => r is None,
        },
{
    let ctx = chars_of(context);
    let disposition = disposition_from_context(ctx.as_slice());
    let mut source = String::from_str("line:");
    push_dec(&mut source, line_no as u64);
    let candidate = classify_candidate(token);
    let kind = match candidate {
        CandidateKind::Ip => match Ipv4AddrExt::parse(token) {
            Ok(ip) => IocKind::Ip(ip),
            Err(_) => {
                return None;
            },
        },
        CandidateKind::Cidr => match CidrBlock::parse(token) {
            Ok(c) => IocKind::Cidr(c),
            Err(_) => {
                return None;
            },
        },
        CandidateKind::Domain => match normalize_domain(token) {
            Some(d) => IocKind::Domain(d),
            None => {
                return None;
            },
        },
        CandidateKind::Url => match normalize_url(token) {
            Some(u) => IocKind::Url(u),
            None => {
                return None;
            },
        },
        CandidateKind::Hash => match normalize_hash(token) {
            Some((algorithm, value)) => IocKind::Hash { algorithm, value },
            None => {
                return None;
            },
        },
        CandidateKind::Unknown => {
            return None;
        },
    };
    let confidence = confidence_for_candidate(candidate, context);
    let severity = severity_from_context(ctx.as_slice(), confidence);
    let tags = tags_from_context(ctx.as_slice());
    Some(IocRecord { kind, disposition, severity, confidence, source: Some(source), tags })
}

fn tokens_from_line(line: &[char]) -> (r: Vec<String>)
    ensures
        r.deep_view() == line_tokens(line@),
{
    if has_char(line, ',') {
        split_csv_line(line)
    } else {
        let ws = split_words(line);
        let mut out: Vec<String> = Vec::new();
        let mut i: usize = 0;
        while i < ws.len()
            invariant
                i <= ws@.len(),
                ws.deep_view() == words(line@),
                out.deep_view() == ws.deep_view().take(i as int).map_values(
                    |w: Seq<char>| trim_set(w, CharSet::Two(';', ',')),
                ),
            decreases ws@.len() - i,
        {
            assert(ws.deep_view()[i as int] =~= ws@[i as int]@);
            let t = trim_slice(ws[i].as_slice(), CharSet::Two(';', ','));
            let s = string_of(t);
            let ghost before = out.deep_view();
            let ghost sv = s@;
            out.push(s);
            assert(out.deep_view() =~= before.push(sv));
            assert(ws.deep_view().take(i + 1).map_values(
                |w: Seq<char>| trim_set(w, CharSet::Two(';', ',')),
            ) =~= before.push(sv));
            i = i + 1;
        }
        assert(ws.deep_view().take(ws@.len() as int) =~= ws.deep_view());
        out
    }
}

fn add_line_tokens(set: &mut IocSet, line: &[char], line_no: usize)
    ensures
        final(set)@ == add_tokens(old(set)@, line_tokens(line@), line@, line_no as nat),
{
    let tokens = tokens_from_line(line);
    let context = string_of(line);
    let ghost tv = tokens.deep_view();
    let mut i: usize = 0;
    assert(tv.take(0) =~= Seq::<Seq<char>>::empty());
    while i < tokens.len()
        invariant
            i <= tokens@.len(),
            tv == tokens.deep_view(),
            tv == line_tokens(line@),
            context@ == line@,
            set@ == add_tokens(old(set)@, tv.take(i as int), line@, line_no as nat),
        decreases tokens@.len() - i,
    {
        assert(tv.take(i + 1).drop_last() =~= tv.take(i as int));
        assert(tv.take(i + 1).last() == tokens@[i as int]@);
        match parse_ioc_token(tokens[i].as_str(), context.as_str(), line_no) {
            Some(record) => {
                set.add(record);
            },
            None => {},
        }
        i = i + 1;
    }
    assert(tv.take(tokens@.len() as int) =~= tv);
}

/// Reads indicators from text: one or more per line (comma-separated or by whitespace),
/// `#` starting a comment. A repeated indicator is noted as a duplicate.
pub fn parse_ioc_text(input: &str) -> (r: IocSet)
    ensures
        r@ == spec_parse_ioc_text(input@),
{
    let ls = lines_of(input);
    let ghost lv = ls.deep_view();
    let mut set = IocSet::default();
    let mut i: usize = 0;
    assert(lv.take(0) =~= Seq::<Seq<char>>::empty());
    while i < ls.len()
        invariant
            i <= ls@.len(),
            lv == ls.deep_view(),
            lv == lines(input@),
            set@ == add_lines(lv.take(i as int)),
        decreases ls@.len() - i,
    {
        assert(lv.take(i + 1).drop_last() =~= lv.take(i as int));
        assert(lv.take(i + 1).last() == ls@[i as int]@);
        let before = before_char_exec(ls[i].as_slice(), '#');
        let line = trim_ws(before);
        if line.len() != 0 {
            add_line_tokens(&mut set, line, i + 1);
        }
        i = i + 1;
    }
    assert(lv.take(ls@.len() as int) =~= lv);
    set
}

/// No key twice among the records, and each key noted as a duplicate held by a record.
pub open spec fn set_consistent(s: SetView) -> bool {
    &&& keys_distinct(s.records)
    &&& forall|k: int| 0 <= k < s.duplicates.len() ==> has_key(s.records, #[trigger] s.duplicates[k])
}

proof fn lemma_add_consistent(s: SetView, r: RecordView)
    requires
        set_consistent(s),
    ensures
        set_consistent(set_add(s, r)),
{
    law_add_keeps_keys_distinct(s, r);
    let t = set_add(s, r);
    assert forall|k: int| 0 <= k < t.duplicates.len() implies has_key(
        t.records,
        #[trigger] t.duplicates[k],
    ) by {
        if k < s.duplicates.len() {
            assert(t.duplicates[k] == s.duplicates[k]);
            let i = choose|i: int|
                0 <= i < s.records.len() && kind_key((#[trigger] s.records[i]).kind)
                    == s.duplicates[k];
            assert(t.records[i] == s.records[i]);
        }
    }
}

proof fn lemma_tokens_consistent(s: SetView, tokens: Seq<Seq<char>>, context: Seq<char>, line_no: nat)
    requires
        set_consistent(s),
    ensures
        set_consistent(add_tokens(s, tokens, context, line_no)),
    decreases tokens.len(),
{
    if tokens.len() > 0 {
        lemma_tokens_consistent(s, tokens.drop_last(), context, line_no);
        match spec_parse_token(tokens.last(), context, line_no) {
            Some(r) => lemma_add_consistent(add_tokens(s, tokens.drop_last(), context, line_no), r),
            None => {},
        }
    }
}

proof fn lemma_lines_consistent(ls: Seq<Seq<char>>)
    ensures
        set_consistent(add_lines(ls)),
    decreases ls.len(),
{
    if ls.len() > 0 {
        lemma_lines_consistent(ls.drop_last());
        let line = clean_line(ls.last());
        if line.len() > 0 {
            lemma_tokens_consistent(add_lines(ls.drop_last()), line_tokens(line), line, ls.len());
        }
    }
}

/// Whatever the text, the parsed set holds each indicator once, and every duplicate it
/// reports is an indicator it holds.
pub proof fn law_parsed_set_consistent(input: Seq<char>)
    ensures
        set_consistent(spec_parse_ioc_text(input)),
{
    lemma_lines_consistent(lines(input));
}

} // verus!
