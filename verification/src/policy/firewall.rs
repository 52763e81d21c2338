use vstd::prelude::*;
use vstd::string::*;
use crate::common::ip::{
    CidrBlock, Ipv4AddrExt, spec_parse_cidr, spec_parse_ipv4, spec_prefix_to_mask,
};
use crate::common::text::{
    chars_of, contains_seq, contains_str, eq_str, has_char, has_prefix, is_ascii_ws,
    is_ascii_whitespace, lemma_deep_chars, lower_seq, lower_string, parse_u16, parse_unsigned,
    starts_with_str, string_of, trim, trim_ws,
};
use crate::policy::model::{FirewallRule, FwView, PolicyAction, PolicyActionView, spec_policy_action};

verus! {

// ---------------------------------------------------------------------
// Words of a command line
// ---------------------------------------------------------------------

/// The words still to come, with `cur` collected so far: ASCII whitespace outside quotes
/// separates words, quotes are dropped and toggle quoting, and empty words are skipped.
pub open spec fn shell_pieces(s: Seq<char>, cur: Seq<char>, in_quotes: bool) -> Seq<Seq<char>>
    decreases s.len(),
{
    if s.len() == 0 {
        if cur.len() > 0 {
            seq![cur]
        } else {
            Seq::empty()
        }
    } else {
        let c = s[0];
        let rest = s.skip(1);
        if c == '"' {
            shell_pieces(rest, cur, !in_quotes)
        } else if is_ascii_ws(c) && !in_quotes {
            (if cur.len() > 0 {
                seq![cur]
            } else {
                Seq::empty()
            }) + shell_pieces(rest, Seq::empty(), in_quotes)
        } else {
            shell_pieces(rest, cur.push(c), in_quotes)
        }
    }
}

pub open spec fn spec_shell_words(s: Seq<char>) -> Seq<Seq<char>> {
    shell_pieces(s, Seq::empty(), false)
}

/// Splits a command line into words, honouring double quotes.
pub fn shell_words(s: &[char]) -> (r: Vec<Vec<char>>)
    ensures
        r.deep_view() == spec_shell_words(s@),
{
    let mut out: Vec<Vec<char>> = Vec::new();
    let mut cur: Vec<char> = Vec::new();
    let mut in_quotes = false;
    let mut i: usize = 0;
    assert(s@.skip(0) =~= s@);
    assert(out.deep_view() + shell_pieces(s@, cur@, false) =~= spec_shell_words(s@));
    while i < s.len()
        invariant
            i <= s@.len(),
            out.deep_view() + shell_pieces(s@.skip(i as int), cur@, in_quotes) == spec_shell_words(
                s@,
            ),
        decreases s@.len() - i,
    {
        let c = s[i];
        let ghost t = s@.skip(i as int);
        let ghost before = out.deep_view();
        assert(t[0] == c);
        assert(t.skip(1) =~= s@.skip(i + 1));
        if c == '"' {
            in_quotes = !in_quotes;
        } else if is_ascii_whitespace(c) && !in_quotes {
            if cur.len() > 0 {
                let done = cur;
                let ghost dv = done@;
                proof {
                    lemma_deep_chars(done);
                }
                out.push(done);
                assert(out.deep_view() =~= before.push(dv));
                cur = Vec::new();
                assert(before + shell_pieces(t, dv, in_quotes) =~= out.deep_view() + shell_pieces(
                    s@.skip(i + 1),
                    cur@,
                    in_quotes,
                ));
            } else {
                assert(cur@ =~= Seq::<char>::empty());
                assert(shell_pieces(t, cur@, in_quotes) =~= Seq::<Seq<char>>::empty()
                    + shell_pieces(s@.skip(i + 1), Seq::<char>::empty(), in_quotes));
                assert(before + shell_pieces(t, cur@, in_quotes) =~= out.deep_view()
                    + shell_pieces(s@.skip(i + 1), cur@, in_quotes));
            }
        } else {
            cur.push(c);
        }
        i = i + 1;
    }
    let ghost before = out.deep_view();
    assert(s@.skip(i as int) =~= Seq::<char>::empty());
    if cur.len() > 0 {
        let ghost cv = cur@;
        proof {
            lemma_deep_chars(cur);
        }
        out.push(cur);
        assert(out.deep_view() =~= before.push(cv));
        assert(before + seq![cv] =~= out.deep_view());
    } else {
        assert(before + Seq::<Seq<char>>::empty() =~= before);
    }
    out
}

// ---------------------------------------------------------------------
// Addresses and ports
// ---------------------------------------------------------------------

/// A block written `address/prefix`, or a single address as a `/32` block; `None` where
/// it does not parse.
pub open spec fn spec_cidr_or_ip(s: Seq<char>) -> Option<CidrBlock> {
    if s.contains('/') {
        match spec_parse_cidr(s) {
            Ok((n, p)) => Some(CidrBlock { network: Ipv4AddrExt(n), prefix: p }),
            Err(_) => None,
        }
    } else {
        match spec_parse_ipv4(s) {
            Ok(x) => Some(
                CidrBlock { network: Ipv4AddrExt(x & spec_prefix_to_mask(32)), prefix: 32 },
            ),
            Err(_) => None,
        }
    }
}

/// A port number as `str::parse::<u16>` reads it.
pub open spec fn spec_port(s: Seq<char>) -> Option<u16> {
    match parse_unsigned(s, 65535) {
        Some(n) => Some(n as u16),
        None => None,
    }
}

fn cidr_or_ip_chars(s: &[char]) -> (r: Option<CidrBlock>)
    ensures
        r == spec_cidr_or_ip(s@),
{
    let text = string_of(s);
    if has_char(s, '/') {
        match CidrBlock::parse(text.as_str()) {
            Ok(b) => Some(b),
            Err(_) => None,
        }
    } else {
        match Ipv4AddrExt::parse(text.as_str()) {
            Ok(ip) => match CidrBlock::new(ip, 32) {
                Ok(b) => Some(b),
                Err(_) => None,
            },
            Err(_) => None,
        }
    }
}

/// An address or block as a block: `a.b.c.d/n`, or `a.b.c.d` as a `/32`.
pub fn parse_cidr_or_ip(input: &str) -> (r: Option<CidrBlock>)
    ensures
        r == spec_cidr_or_ip(input@),
{
    let v = chars_of(input);
    cidr_or_ip_chars(v.as_slice())
}

fn port_of(s: &[char]) -> (r: Option<u16>)
    ensures
        r == spec_port(s@),
{
    parse_u16(s)
}

pub open spec fn opt_fw(r: Option<FirewallRule>) -> Option<FwView> {
    match r {
        Some(x) => Some(x@),
        None => None,
    }
}

/// The rule a line starts from before its flags are read.
pub open spec fn blank_rule(index: usize, chain: Seq<char>, raw: Seq<char>) -> FwView {
    FwView {
        index,
        chain,
        protocol: None,
        source: None,
        destination: None,
        source_port: None,
        destination_port: None,
        action: PolicyActionView::Unknown("UNSPECIFIED"@),
        raw,
    }
}

fn blank_rule_exec(index: usize, chain: String, raw: &str) -> (r: FirewallRule)
    ensures
        r@ == blank_rule(index, chain@, raw@),
{
    FirewallRule {
        index,
        chain,
        protocol: None,
        source: None,
        destination: None,
        source_port: None,
        destination_port: None,
        action: PolicyAction::Unknown(String::from_str("UNSPECIFIED")),
        raw: String::from_str(raw),
    }
}

// ---------------------------------------------------------------------
// iptables
// ---------------------------------------------------------------------

/// Which field an iptables flag sets: 1 protocol, 2 source, 3 destination, 4 source port,
/// 5 destination port, 6 target; 0 for anything else.
pub open spec fn ipt_flag(t: Seq<char>) -> nat {
    if t == "-p"@ || t == "--protocol"@ {
        1
    } else if t == "-s"@ || t == "--source"@ {
        2
    } else if t == "-d"@ || t == "--destination"@ {
        3
    } else if t == "--sport"@ || t == "--source-port"@ {
        4
    } else if t == "--dport"@ || t == "--destination-port"@ {
        5
    } else if t == "-j"@ || t == "--jump"@ {
        6
    } else {
        0
    }
}

/// The rule with the field that flag `f` names set from `v`.
pub open spec fn ipt_set(r: FwView, f: nat, v: Seq<char>) -> FwView {
    if f == 1 {
        FwView { protocol: Some(lower_seq(v)), ..r }
    } else if f == 2 {
        FwView { source: spec_cidr_or_ip(v), ..r }
    } else if f == 3 {
        FwView { destination: spec_cidr_or_ip(v), ..r }
    } else if f == 4 {
        FwView { source_port: spec_port(v), ..r }
    } else if f == 5 {
        FwView { destination_port: spec_port(v), ..r }
    } else {
        FwView { action: spec_policy_action(v), ..r }
    }
}

/// The rule after reading the words from `i` on: a known flag takes the next word as its
/// value (where there is one) and both are consumed; any other word is skipped.
pub open spec fn ipt_apply(ps: Seq<Seq<char>>, i: int, r: FwView) -> FwView
    decreases ps.len() - i,
{
    if i < 0 || i >= ps.len() {
        r
    } else {
        let f = ipt_flag(ps[i]);
        if f == 0 {
            ipt_apply(ps, i + 1, r)
        } else if i + 1 < ps.len() {
            ipt_apply(ps, i + 2, ipt_set(r, f, ps[i + 1]))
        } else {
            r
        }
    }
}

/// An `-A chain ...` or `-I chain ...` line with at least one more word.
pub open spec fn spec_parse_iptables(index: usize, line: Seq<char>) -> Option<FwView> {
    let t = trim(line);
    if !(has_prefix(t, "-A "@) || has_prefix(t, "-I "@)) {
        None
    } else {
        let ps = spec_shell_words(t);
        if ps.len() < 3 {
            None
        } else {
            Some(ipt_apply(ps, 2, blank_rule(index, ps[1], line)))
        }
    }
}

fn ipt_flag_exec(t: &[char]) -> (r: u8)
    ensures
        r == ipt_flag(t@),
{
    if eq_str(t, "-p") || eq_str(t, "--protocol") {
        1
    } else if eq_str(t, "-s") || eq_str(t, "--source") {
        2
    } else if eq_str(t, "-d") || eq_str(t, "--destination") {
        3
    } else if eq_str(t, "--sport") || eq_str(t, "--source-port") {
        4
    } else if eq_str(t, "--dport") || eq_str(t, "--destination-port") {
        5
    } else if eq_str(t, "-j") || eq_str(t, "--jump") {
        6
    } else {
        0
    }
}

fn ipt_set_exec(rule: &mut FirewallRule, f: u8, v: &[char])
    requires
        1 <= f <= 6,
    ensures
        final(rule)@ == ipt_set(old(rule)@, f as nat, v@),
{
    if f == 1 {
        rule.protocol = Some(lower_string(v));
    } else if f == 2 {
        rule.source = cidr_or_ip_chars(v);
    } else if f == 3 {
        rule.destination = cidr_or_ip_chars(v);
    } else if f == 4 {
        rule.source_port = port_of(v);
    } else if f == 5 {
        rule.destination_port = port_of(v);
    } else {
        rule.action = PolicyAction::from_chars(v);
    }
}

fn parse_iptables_chars(index: usize, line: &str) -> (r: Option<FirewallRule>)
    ensures
        opt_fw(r) == spec_parse_iptables(index, line@),
{
    let all = chars_of(line);
    let t = trim_ws(all.as_slice());
    if !(starts_with_str(t, "-A ") || starts_with_str(t, "-I ")) {
        return None;
    }
    let parts = shell_words(t);
    let ghost ps = parts.deep_view();
    if parts.len() < 3 {
        return None;
    }
    assert(parts@[1]@ == ps[1]);
    let mut rule = blank_rule_exec(index, string_of(parts[1].as_slice()), line);
    let ghost init = rule@;
    let mut i: usize = 2;
    while i < parts.len()
        invariant
            2 <= i <= parts@.len(),
            ps == parts.deep_view(),
            ipt_apply(ps, i as int, rule@) == ipt_apply(ps, 2, init),
        decreases parts@.len() - i,
    {
        assert(parts@[i as int]@ == ps[i as int]);
        let f = ipt_flag_exec(parts[i].as_slice());
        if f == 0 {
            i = i + 1;
        } else if i + 1 < parts.len() {
            assert(parts@[i + 1]@ == ps[i + 1]);
            ipt_set_exec(&mut rule, f, parts[i + 1].as_slice());
            if i + 2 < parts.len() {
                i = i + 2;
            } else {
                i = parts.len();
            }
        } else {
            i = parts.len();
        }
    }
    Some(rule)
}

/// An iptables rule (`-A chain ...` or `-I chain ...`); `None` for any other line.
pub fn parse_iptables_line(index: usize, line: &str) -> (r: Option<FirewallRule>)
    ensures
        opt_fw(r) == spec_parse_iptables(index, line@),
{
    parse_iptables_chars(index, line)
}

// ---------------------------------------------------------------------
// nftables
// ---------------------------------------------------------------------

/// The line names a verdict or a counter.
pub open spec fn nft_has_verb(t: Seq<char>) -> bool {
    contains_seq(t, " accept"@) || contains_seq(t, " drop"@) || contains_seq(t, " reject"@)
        || contains_seq(t, " counter"@)
}

/// The first index at which `w` stands.
pub open spec fn first_index(ts: Seq<Seq<char>>, w: Seq<char>) -> Option<int>
    decreases ts.len(),
{
    if ts.len() == 0 {
        None
    } else if ts[0] == w {
        Some(0)
    } else {
        match first_index(ts.skip(1), w) {
            Some(k) => Some(k + 1),
            None => None,
        }
    }
}

/// The word after the first `chain`, or `nft`.
pub open spec fn nft_chain(ts: Seq<Seq<char>>) -> Seq<char> {
    match first_index(ts, "chain"@) {
        Some(p) => if p + 1 < ts.len() {
            ts[p + 1]
        } else {
            "nft"@
        },
        None => "nft"@,
    }
}

/// `i + k`, but no further than the end.
pub open spec fn advance(ts: Seq<Seq<char>>, i: int, k: int) -> int {
    if i + k < ts.len() {
        i + k
    } else {
        ts.len() as int
    }
}

pub open spec fn word_at(ts: Seq<Seq<char>>, i: int) -> Option<Seq<char>> {
    if 0 <= i < ts.len() {
        Some(ts[i])
    } else {
        None
    }
}

/// The rule after reading the words from `i` on: `ip saddr X` and `ip daddr X` set the
/// blocks, `tcp`/`udp` set the protocol and, followed by `dport X` or `sport X`, a port,
/// and `accept`, `drop` or `reject` set the action.
pub open spec fn nft_apply(ts: Seq<Seq<char>>, i: int, r: FwView) -> FwView
    decreases ts.len() - i,
{
    if i < 0 || i >= ts.len() {
        r
    } else {
        let t = ts[i];
        let next = word_at(ts, i + 1);
        if t == "ip"@ && next == Some("saddr"@) {
            nft_apply(
                ts,
                advance(ts, i, 3),
                match word_at(ts, i + 2) {
                    Some(v) => FwView { source: spec_cidr_or_ip(v), ..r },
                    None => r,
                },
            )
        } else if t == "ip"@ && next == Some("daddr"@) {
            nft_apply(
                ts,
                advance(ts, i, 3),
                match word_at(ts, i + 2) {
                    Some(v) => FwView { destination: spec_cidr_or_ip(v), ..r },
                    None => r,
                },
            )
        } else if t == "tcp"@ || t == "udp"@ {
            let r1 = FwView { protocol: Some(t), ..r };
            let port = match word_at(ts, i + 2) {
                Some(v) => spec_port(v),
                None => None,
            };
            if next == Some("dport"@) {
                nft_apply(ts, advance(ts, i, 3), FwView { destination_port: port, ..r1 })
            } else if next == Some("sport"@) {
                nft_apply(ts, advance(ts, i, 3), FwView { source_port: port, ..r1 })
            } else {
                nft_apply(ts, i + 1, r1)
            }
        } else if t == "accept"@ || t == "drop"@ || t == "reject"@ {
            nft_apply(ts, i + 1, FwView { action: spec_policy_action(t), ..r })
        } else {
            nft_apply(ts, i + 1, r)
        }
    }
}

/// An nftables rule line: one that names a verdict or a counter.
pub open spec fn spec_parse_nft(index: usize, line: Seq<char>) -> Option<FwView> {
    let t = trim(line);
    if !nft_has_verb(t) {
        None
    } else {
        let ts = spec_shell_words(t);
        Some(nft_apply(ts, 0, blank_rule(index, nft_chain(ts), line)))
    }
}

fn word_is(ts: &Vec<Vec<char>>, i: usize, w: &str) -> (r: bool)
    ensures
        r == (word_at(ts.deep_view(), i as int) == Some(w@)),
{
    if i < ts.len() {
        assert(ts@[i as int]@ == ts.deep_view()[i as int]);
        eq_str(ts[i].as_slice(), w)
    } else {
        false
    }
}

fn nft_chain_exec(ts: &Vec<Vec<char>>) -> (r: String)
    ensures
        r@ == nft_chain(ts.deep_view()),
{
    let ghost tv = ts.deep_view();
    let mut i: usize = 0;
    assert(tv.skip(0) =~= tv);
    while i < ts.len()
        invariant
            i <= ts@.len(),
            tv == ts.deep_view(),
            forall|k: int| 0 <= k < i ==> tv[k] != "chain"@,
        decreases ts@.len() - i,
    {
        assert(ts@[i as int]@ == tv[i as int]);
        if eq_str(ts[i].as_slice(), "chain") {
            proof {
                lemma_first_index(tv, "chain"@, i as int);
            }
            if i + 1 < ts.len() {
                assert(ts@[i + 1]@ == tv[i + 1]);
                return string_of(ts[i + 1].as_slice());
            } else {
                return String::from_str("nft");
            }
        }
        i = i + 1;
    }
    proof {
        lemma_first_index_none(tv, "chain"@);
    }
    String::from_str("nft")
}

proof fn lemma_first_index(ts: Seq<Seq<char>>, w: Seq<char>, i: int)
    requires
        0 <= i < ts.len(),
        ts[i] == w,
        forall|k: int| 0 <= k < i ==> ts[k] != w,
    ensures
        first_index(ts, w) == Some(i),
    decreases i,
{
    if i > 0 {
        let t = ts.skip(1);
        assert forall|k: int| 0 <= k < i - 1 implies t[k] != w by {
            assert(t[k] == ts[k + 1]);
        }
        lemma_first_index(t, w, i - 1);
    }
}

proof fn lemma_first_index_none(ts: Seq<Seq<char>>, w: Seq<char>)
    requires
        forall|k: int| 0 <= k < ts.len() ==> ts[k] != w,
    ensures
        first_index(ts, w) is None,
    decreases ts.len(),
{
    if ts.len() > 0 {
        let t = ts.skip(1);
        assert forall|k: int| 0 <= k < t.len() implies t[k] != w by {
            assert(t[k] == ts[k + 1]);
        }
        lemma_first_index_none(t, w);
    }
}

fn step_to(i: usize, k: usize, n: usize) -> (r: usize)
    requires
        i < n,
        k <= 3,
    ensures
        r == (if i + k < n {
            (i + k) as usize
        } else {
            n
        }),
{
    if k >= n - i {
        n
    } else {
        i + k
    }
}

fn parse_nft_chars(index: usize, line: &str) -> (r: Option<FirewallRule>)
    ensures
        opt_fw(r) == spec_parse_nft(index, line@),
{
    let all = chars_of(line);
    let t = trim_ws(all.as_slice());
    if !(contains_str(t, " accept") || contains_str(t, " drop") || contains_str(t, " reject")
        || contains_str(t, " counter")) {
        return None;
    }
    let ts = shell_words(t);
    let ghost tv = ts.deep_view();
    let chain = nft_chain_exec(&ts);
    let mut rule = blank_rule_exec(index, chain, line);
    let ghost init = rule@;
    let n = ts.len();
    let mut i: usize = 0;
    while i < n
        invariant
            i <= n,
            n == ts@.len(),
            tv == ts.deep_view(),
            nft_apply(tv, i as int, rule@) == nft_apply(tv, 0, init),
        decreases n - i,
    {
        let ghost r0 = rule@;
        assert(ts@[i as int]@ == tv[i as int]);
        let w = ts[i].as_slice();
        let is_ip = eq_str(w, "ip");
        if is_ip && word_is(&ts, i + 1, "saddr") {
            if n - i > 2 {
                assert(ts@[i + 2]@ == tv[i + 2]);
                rule.source = cidr_or_ip_chars(ts[i + 2].as_slice());
            }
            i = step_to(i, 3, n);
        } else if is_ip && word_is(&ts, i + 1, "daddr") {
            if n - i > 2 {
                assert(ts@[i + 2]@ == tv[i + 2]);
                rule.destination = cidr_or_ip_chars(ts[i + 2].as_slice());
            }
            i = step_to(i, 3, n);
        } else if eq_str(w, "tcp") || eq_str(w, "udp") {
            rule.protocol = Some(string_of(w));
            let port = if n - i > 2 {
                assert(ts@[i + 2]@ == tv[i + 2]);
                port_of(ts[i + 2].as_slice())
            } else {
                None
            };
            if word_is(&ts, i + 1, "dport") {
                rule.destination_port = port;
                i = step_to(i, 3, n);
            } else if word_is(&ts, i + 1, "sport") {
                rule.source_port = port;
                i = step_to(i, 3, n);
            } else {
                i = i + 1;
            }
        } else if eq_str(w, "accept") || eq_str(w, "drop") || eq_str(w, "reject") {
            rule.action = PolicyAction::from_chars(w);
            i = i + 1;
        } else {
            i = i + 1;
        }
    }
    Some(rule)
}

/// An nftables rule line (one with `accept`, `drop`, `reject` or `counter`); `None` for
/// any other line.
pub fn parse_nft_line(index: usize, line: &str) -> (r: Option<FirewallRule>)
    ensures
        opt_fw(r) == spec_parse_nft(index, line@),
{
    parse_nft_chars(index, line)
}

// ---------------------------------------------------------------------
// Laws of nftables reading
// ---------------------------------------------------------------------

/// Words from `j` on that name neither `saddr` nor `daddr` leave both blocks as they are.
proof fn lemma_nft_keeps_blocks(ts: Seq<Seq<char>>, j: int, r: FwView)
    requires
        0 <= j,
        forall|m: int| j + 1 <= m < ts.len() ==> ts[m] != "saddr"@ && ts[m] != "daddr"@,
    ensures
        nft_apply(ts, j, r).source == r.source,
        nft_apply(ts, j, r).destination == r.destination,
    decreases ts.len() - j,
{
    if j < ts.len() {
        let t = ts[j];
        let next = word_at(ts, j + 1);
        if j + 1 < ts.len() {
            assert(ts[j + 1] != "saddr"@ && ts[j + 1] != "daddr"@);
        }
        if t == "ip"@ && next == Some("saddr"@) {
        } else if t == "ip"@ && next == Some("daddr"@) {
        } else if t == "tcp"@ || t == "udp"@ {
            let r1 = FwView { protocol: Some(t), ..r };
            let port = match word_at(ts, j + 2) {
                Some(v) => spec_port(v),
                None => None,
            };
            if next == Some("dport"@) {
                lemma_nft_keeps_blocks(ts, advance(ts, j, 3), FwView { destination_port: port, ..r1 });
            } else if next == Some("sport"@) {
                lemma_nft_keeps_blocks(ts, advance(ts, j, 3), FwView { source_port: port, ..r1 });
            } else {
                lemma_nft_keeps_blocks(ts, j + 1, r1);
            }
        } else if t == "accept"@ || t == "drop"@ || t == "reject"@ {
            lemma_nft_keeps_blocks(ts, j + 1, FwView { action: spec_policy_action(t), ..r });
        } else {
            lemma_nft_keeps_blocks(ts, j + 1, r);
        }
    }
}

/// Reading from `j` reaches word `i` one word at a time, touching neither block, where no
/// word in between is `tcp`, `udp`, or followed by `saddr` or `daddr`.
proof fn lemma_nft_reaches(ts: Seq<Seq<char>>, j: int, i: int, r: FwView)
    requires
        0 <= j <= i < ts.len(),
        forall|k: int|
            j <= k < i ==> #[trigger] ts[k] != "tcp"@ && ts[k] != "udp"@ && ts[k + 1] != "saddr"@
                && ts[k + 1] != "daddr"@,
    ensures
        exists|r2: FwView|
            #![trigger nft_apply(ts, i, r2)]
            r2.source == r.source && r2.destination == r.destination && nft_apply(ts, j, r)
                == nft_apply(ts, i, r2),
    decreases i - j,
{
    if j == i {
        assert(nft_apply(ts, i, r) == nft_apply(ts, i, r));
    } else {
        let t = ts[j];
        assert(t != "tcp"@ && t != "udp"@ && ts[j + 1] != "saddr"@ && ts[j + 1] != "daddr"@);
        assert(word_at(ts, j + 1) == Some(ts[j + 1]));
        let r1 = if t == "accept"@ || t == "drop"@ || t == "reject"@ {
            FwView { action: spec_policy_action(t), ..r }
        } else {
            r
        };
        assert(nft_apply(ts, j, r) == nft_apply(ts, j + 1, r1));
        lemma_nft_reaches(ts, j + 1, i, r1);
        let r2 = choose|r2: FwView|
            #![trigger nft_apply(ts, i, r2)]
            r2.source == r1.source && r2.destination == r1.destination && nft_apply(ts, j + 1, r1)
                == nft_apply(ts, i, r2);
        assert(nft_apply(ts, i, r2) == nft_apply(ts, j, r));
    }
}

/// On an nftables line whose words hold `ip daddr X` (reached by the reading, so no `tcp` or
/// `udp` before it) and name no other address, the rule's destination is the block `X`
/// names and its source stays open.
pub proof fn law_nft_daddr_sets_destination(index: usize, line: Seq<char>, i: int)
    requires
        nft_has_verb(trim(line)),
        0 <= i,
        i + 2 < spec_shell_words(trim(line)).len(),
        spec_shell_words(trim(line))[i] == "ip"@,
        spec_shell_words(trim(line))[i + 1] == "daddr"@,
        forall|k: int|
            0 <= k < spec_shell_words(trim(line)).len() ==> #[trigger] spec_shell_words(
                trim(line),
            )[k] != "saddr"@ && (spec_shell_words(trim(line))[k] == "daddr"@ ==> k == i + 1),
        forall|k: int|
            0 <= k < i ==> #[trigger] spec_shell_words(trim(line))[k] != "tcp"@
                && spec_shell_words(trim(line))[k] != "udp"@,
    ensures
        spec_parse_nft(index, line) matches Some(r) && r.destination == spec_cidr_or_ip(
            spec_shell_words(trim(line))[i + 2],
        ) && r.source is None,
{
    reveal_strlit("saddr");
    reveal_strlit("daddr");
    let ts = spec_shell_words(trim(line));
    let r0 = blank_rule(index, nft_chain(ts), line);
    assert forall|k: int| 0 <= k < i implies #[trigger] ts[k] != "tcp"@ && ts[k] != "udp"@
        && ts[k + 1] != "saddr"@ && ts[k + 1] != "daddr"@ by {
        assert(ts[k] != "tcp"@ && ts[k] != "udp"@);
        assert(ts[k + 1] != "saddr"@);
        if ts[k + 1] == "daddr"@ {
            assert(k + 1 == i + 1);
        }
    }
    lemma_nft_reaches(ts, 0, i, r0);
    let r2 = choose|r2: FwView|
        #![trigger nft_apply(ts, i, r2)]
        r2.source == r0.source && r2.destination == r0.destination && nft_apply(ts, 0, r0)
            == nft_apply(ts, i, r2);
    assert("daddr"@ != "saddr"@);
    assert(word_at(ts, i + 1) == Some("daddr"@));
    assert(word_at(ts, i + 2) == Some(ts[i + 2]));
    let r3 = FwView { destination: spec_cidr_or_ip(ts[i + 2]), ..r2 };
    assert(nft_apply(ts, i, r2) == nft_apply(ts, advance(ts, i, 3), r3));
    assert forall|m: int| advance(ts, i, 3) + 1 <= m < ts.len() implies ts[m] != "saddr"@
        && ts[m] != "daddr"@ by {
        assert(ts[m] != "saddr"@);
        if ts[m] == "daddr"@ {
            assert(m == i + 1);
        }
    }
    lemma_nft_keeps_blocks(ts, advance(ts, i, 3), r3);
}

/// On an nftables line whose words hold `ip saddr X` (reached by the reading, so no `tcp` or
/// `udp` before it) and name no other address, the rule's source is the block `X`
/// names and its destination stays open.
pub proof fn law_nft_saddr_sets_source(index: usize, line: Seq<char>, i: int)
    requires
        nft_has_verb(trim(line)),
        0 <= i,
        i + 2 < spec_shell_words(trim(line)).len(),
        spec_shell_words(trim(line))[i] == "ip"@,
        spec_shell_words(trim(line))[i + 1] == "saddr"@,
        forall|k: int|
            0 <= k < spec_shell_words(trim(line)).len() ==> #[trigger] spec_shell_words(
                trim(line),
            )[k] != "daddr"@ && (spec_shell_words(trim(line))[k] == "saddr"@ ==> k == i + 1),
        forall|k: int|
            0 <= k < i ==> #[trigger] spec_shell_words(trim(line))[k] != "tcp"@
                && spec_shell_words(trim(line))[k] != "udp"@,
    ensures
        spec_parse_nft(index, line) matches Some(r) && r.source == spec_cidr_or_ip(
            spec_shell_words(trim(line))[i + 2],
        ) && r.destination is None,
{
    reveal_strlit("saddr");
    reveal_strlit("daddr");
    let ts = spec_shell_words(trim(line));
    let r0 = blank_rule(index, nft_chain(ts), line);
    assert forall|k: int| 0 <= k < i implies #[trigger] ts[k] != "tcp"@ && ts[k] != "udp"@
        && ts[k + 1] != "saddr"@ && ts[k + 1] != "daddr"@ by {
        assert(ts[k] != "tcp"@ && ts[k] != "udp"@);
        assert(ts[k + 1] != "daddr"@);
        if ts[k + 1] == "saddr"@ {
            assert(k + 1 == i + 1);
        }
    }
    lemma_nft_reaches(ts, 0, i, r0);
    let r2 = choose|r2: FwView|
        #![trigger nft_apply(ts, i, r2)]
        r2.source == r0.source && r2.destination == r0.destination && nft_apply(ts, 0, r0)
            == nft_apply(ts, i, r2);
    assert("daddr"@ != "saddr"@);
    assert(word_at(ts, i + 1) == Some("saddr"@));
    assert(word_at(ts, i + 2) == Some(ts[i + 2]));
    let r3 = FwView { source: spec_cidr_or_ip(ts[i + 2]), ..r2 };
    assert(nft_apply(ts, i, r2) == nft_apply(ts, advance(ts, i, 3), r3));
    assert forall|m: int| advance(ts, i, 3) + 1 <= m < ts.len() implies ts[m] != "saddr"@
        && ts[m] != "daddr"@ by {
        assert(ts[m] != "daddr"@);
        if ts[m] == "saddr"@ {
            assert(m == i + 1);
        }
    }
    lemma_nft_keeps_blocks(ts, advance(ts, i, 3), r3);
}

/// Each iptables flag sets its own field from the word after it and leaves the others:
/// `-s`/`--source` the source block, `-d`/`--destination` the destination block, `--sport`
/// and `--dport` (and their long forms) the ports, `-p` the protocol in lower case, and `-j`
/// the action.
pub proof fn law_iptables_flags(r: FwView, v: Seq<char>)
    ensures
        ({
            let s = ipt_set(r, ipt_flag("-s"@), v);
            s.source == spec_cidr_or_ip(v) && s.destination == r.destination
        }),
        ipt_set(r, ipt_flag("--source"@), v) == ipt_set(r, ipt_flag("-s"@), v),
        ({
            let s = ipt_set(r, ipt_flag("-d"@), v);
            s.destination == spec_cidr_or_ip(v) && s.source == r.source
        }),
        ipt_set(r, ipt_flag("--destination"@), v) == ipt_set(r, ipt_flag("-d"@), v),
        ({
            let s = ipt_set(r, ipt_flag("--sport"@), v);
            s.source_port == spec_port(v) && s.destination_port == r.destination_port
        }),
        ipt_set(r, ipt_flag("--source-port"@), v) == ipt_set(r, ipt_flag("--sport"@), v),
        ({
            let s = ipt_set(r, ipt_flag("--dport"@), v);
            s.destination_port == spec_port(v) && s.source_port == r.source_port
        }),
        ipt_set(r, ipt_flag("--destination-port"@), v) == ipt_set(r, ipt_flag("--dport"@), v),
        ipt_set(r, ipt_flag("-p"@), v).protocol == Some(lower_seq(v)),
        ipt_set(r, ipt_flag("--protocol"@), v) == ipt_set(r, ipt_flag("-p"@), v),
        ipt_set(r, ipt_flag("-j"@), v).action == spec_policy_action(v),
        ipt_set(r, ipt_flag("--jump"@), v) == ipt_set(r, ipt_flag("-j"@), v),
{
    reveal_strlit("-p");
    reveal_strlit("--protocol");
    reveal_strlit("-s");
    reveal_strlit("--source");
    reveal_strlit("-d");
    reveal_strlit("--destination");
    reveal_strlit("--sport");
    reveal_strlit("--source-port");
    reveal_strlit("--dport");
    reveal_strlit("--destination-port");
    reveal_strlit("-j");
    reveal_strlit("--jump");
    assert("-s"@[1] != "-p"@[1]);
    assert(ipt_flag("-s"@) == 2);
    assert("--source"@.len() != "-p"@.len() && "--source"@.len() != "--protocol"@.len());
    assert(ipt_flag("--source"@) == 2);
    assert("-d"@[1] != "-p"@[1] && "-d"@[1] != "-s"@[1]);
    assert(ipt_flag("-d"@) == 3);
    assert("--destination"@.len() != "-p"@.len() && "--destination"@.len() != "--protocol"@.len()
        && "--destination"@.len() != "-s"@.len() && "--destination"@.len() != "--source"@.len());
    assert(ipt_flag("--destination"@) == 3);
    assert(ipt_flag("--sport"@) == 4);
    assert("--source-port"@[2] != "--destination"@[2]);
    assert(ipt_flag("--source-port"@) == 4);
    assert("--dport"@[2] != "--sport"@[2]);
    assert(ipt_flag("--dport"@) == 5);
    assert(ipt_flag("--destination-port"@) == 5);
    assert("-j"@[1] != "-p"@[1] && "-j"@[1] != "-s"@[1] && "-j"@[1] != "-d"@[1]);
    assert(ipt_flag("-j"@) == 6);
    assert("--jump"@.len() == 6 && "--source"@.len() == 8 && "--sport"@.len() == 7
        && "--dport"@.len() == 7 && "--protocol"@.len() == 10 && "--source-port"@.len() == 13
        && "--destination-port"@.len() == 18);
    assert(ipt_flag("--jump"@) == 6);
    assert(ipt_flag("-p"@) == 1);
    assert(ipt_flag("--protocol"@) == 1);
}

} // verus!
