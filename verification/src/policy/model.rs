use vstd::prelude::*;
use vstd::string::*;
use crate::common::ip::{CidrBlock, Ipv4AddrExt};
use crate::common::status::MatchDisposition;
use crate::common::text::{chars_eq, chars_of, dec, eq_str, push_dec, string_of, upper_chars, upper_seq};

verus! {

/// What a firewall rule does with the traffic it matches.
#[derive(Debug, Clone, PartialEq, Eq)]
pub enum PolicyAction {
    Accept,
    Drop,
    Reject,
    Log,
    Return,
    Unknown(String),
}

pub ghost enum PolicyActionView {
    Accept,
    Drop,
    Reject,
    Log,
    Return,
    Unknown(Seq<char>),
}

impl View for PolicyAction {
    type V = PolicyActionView;

    open spec fn view(&self) -> PolicyActionView {
        match self {
            PolicyAction::Accept => PolicyActionView::Accept,
            PolicyAction::Drop => PolicyActionView::Drop,
            PolicyAction::Reject => PolicyActionView::Reject,
            PolicyAction::Log => PolicyActionView::Log,
            PolicyAction::Return => PolicyActionView::Return,
            PolicyAction::Unknown(s) => PolicyActionView::Unknown(s@),
        }
    }
}

/// The action a target names, case-insensitively (`ALLOW` and `DENY` too); an unknown one
/// is kept in upper case.
pub open spec fn spec_policy_action(token: Seq<char>) -> PolicyActionView {
    let u = upper_seq(token);
    if u == "ACCEPT"@ || u == "ALLOW"@ {
        PolicyActionView::Accept
    } else if u == "DROP"@ || u == "DENY"@ {
        PolicyActionView::Drop
    } else if u == "REJECT"@ {
        PolicyActionView::Reject
    } else if u == "LOG"@ {
        PolicyActionView::Log
    } else if u == "RETURN"@ {
        PolicyActionView::Return
    } else {
        PolicyActionView::Unknown(u)
    }
}

pub open spec fn spec_disposition(a: PolicyActionView) -> MatchDisposition {
    match a {
        PolicyActionView::Accept => MatchDisposition::Allowed,
        PolicyActionView::Drop => MatchDisposition::Blocked,
        PolicyActionView::Reject => MatchDisposition::Blocked,
        PolicyActionView::Log => MatchDisposition::Observed,
        _ => MatchDisposition::Unknown,
    }
}

pub open spec fn spec_policy_action_name(a: PolicyActionView) -> Seq<char> {
    match a {
        PolicyActionView::Accept => "ACCEPT"@,
        PolicyActionView::Drop => "DROP"@,
        PolicyActionView::Reject => "REJECT"@,
        PolicyActionView::Log => "LOG"@,
        PolicyActionView::Return => "RETURN"@,
        PolicyActionView::Unknown(s) => s,
    }
}

impl PolicyAction {
    pub fn from_token(token: &str) -> (r: Self)
        ensures
            r@ == spec_policy_action(token@),
    {
        let t = chars_of(token);
        Self::from_chars(t.as_slice())
    }

    /// `from_token` on the characters of the token.
    pub fn from_chars(t: &[char]) -> (r: Self)
        ensures
            r@ == spec_policy_action(t@),
    {
        let u = upper_chars(t);
        let s = u.as_slice();
        if eq_str(s, "ACCEPT") || eq_str(s, "ALLOW") {
            PolicyAction::Accept
        } else if eq_str(s, "DROP") || eq_str(s, "DENY") {
            PolicyAction::Drop
        } else if eq_str(s, "REJECT") {
            PolicyAction::Reject
        } else if eq_str(s, "LOG") {
            PolicyAction::Log
        } else if eq_str(s, "RETURN") {
            PolicyAction::Return
        } else {
            PolicyAction::Unknown(string_of(s))
        }
    }

    pub fn disposition(&self) -> (r: MatchDisposition)
        ensures
            r == spec_disposition(self@),
    {
        match self {
            PolicyAction::Accept => MatchDisposition::Allowed,
            PolicyAction::Drop | PolicyAction::Reject => MatchDisposition::Blocked,
            PolicyAction::Log => MatchDisposition::Observed,
            _ => MatchDisposition::Unknown,
        }
    }

    pub fn as_str(&self) -> (r: &str)
        ensures
            r@ == spec_policy_action_name(self@),
    {
        match self {
            PolicyAction::Accept => "ACCEPT",
            PolicyAction::Drop => "DROP",
            PolicyAction::Reject => "REJECT",
            PolicyAction::Log => "LOG",
            PolicyAction::Return => "RETURN",
            PolicyAction::Unknown(value) => value.as_str(),
        }
    }
}

/// One firewall rule: where it sits, what it matches and what it does.
#[derive(Debug, Clone, PartialEq, Eq)]
pub struct FirewallRule {
    pub index: usize,
    pub chain: String,
    pub protocol: Option<String>,
    pub source: Option<CidrBlock>,
    pub destination: Option<CidrBlock>,
    pub source_port: Option<u16>,
    pub destination_port: Option<u16>,
    pub action: PolicyAction,
    pub raw: String,
}

pub ghost struct FwView {
    pub index: usize,
    pub chain: Seq<char>,
    pub protocol: Option<Seq<char>>,
    pub source: Option<CidrBlock>,
    pub destination: Option<CidrBlock>,
    pub source_port: Option<u16>,
    pub destination_port: Option<u16>,
    pub action: PolicyActionView,
    pub raw: Seq<char>,
}

pub open spec fn opt_seq(o: Option<String>) -> Option<Seq<char>> {
    match o {
        Some(s) => Some(s@),
        None => None,
    }
}

impl View for FirewallRule {
    type V = FwView;

    open spec fn view(&self) -> FwView {
        FwView {
            index: self.index,
            chain: self.chain@,
            protocol: opt_seq(self.protocol),
            source: self.source,
            destination: self.destination,
            source_port: self.source_port,
            destination_port: self.destination_port,
            action: self.action@,
            raw: self.raw@,
        }
    }
}

pub open spec fn fw_views(v: Seq<FirewallRule>) -> Seq<FwView> {
    v.map_values(|r: FirewallRule| r@)
}

/// Two optional blocks can meet: either is absent (any address), or one holds the other's
/// network address.
pub open spec fn spec_cidr_overlaps(a: Option<CidrBlock>, b: Option<CidrBlock>) -> bool {
    match (a, b) {
        (Some(x), Some(y)) => x.spec_contains(y.network.0) || y.spec_contains(x.network.0),
        _ => true,
    }
}

/// Both present and different.
pub open spec fn differ<T>(a: Option<T>, b: Option<T>) -> bool {
    a is Some && b is Some && a != b
}

/// Two rules can match the same traffic: same chain, no field that both set set apart, and
/// overlapping source and destination blocks.
pub open spec fn spec_overlaps(a: FwView, b: FwView) -> bool {
    &&& a.chain == b.chain
    &&& !differ(a.protocol, b.protocol)
    &&& !differ(a.destination_port, b.destination_port)
    &&& !differ(a.source_port, b.source_port)
    &&& spec_cidr_overlaps(a.source, b.source)
    &&& spec_cidr_overlaps(a.destination, b.destination)
}

/// The `Debug` text of a string slice (quoted, with escapes), as `format!("{:?}")` writes it.
pub uninterp spec fn str_debug(s: Seq<char>) -> Seq<char>;

/// `format!("{:?}", s)` for a string slice (std's `Debug` for `str`). The contract names the
/// result `str_debug`, a function of the text alone; how characters are escaped is left
/// unsaid.
#[verifier::external_body]
fn debug_str(s: &str) -> (r: String)
    ensures
        r@ == str_debug(s@),
{
    format!("{:?}", s)
}

pub open spec fn debug_opt_text(o: Option<Seq<char>>) -> Seq<char> {
    match o {
        Some(s) => "Some("@ + str_debug(s) + ")"@,
        None => "None"@,
    }
}

pub open spec fn debug_opt_cidr(o: Option<CidrBlock>) -> Seq<char> {
    match o {
        Some(c) => "Some(CidrBlock { network: Ipv4AddrExt("@ + dec(c.network.0 as nat)
            + "), prefix: "@ + dec(c.prefix as nat) + " })"@,
        None => "None"@,
    }
}

pub open spec fn debug_opt_port(o: Option<u16>) -> Seq<char> {
    match o {
        Some(p) => "Some("@ + dec(p as nat) + ")"@,
        None => "None"@,
    }
}

/// The fields a duplicate is judged by, `|`-separated in their `Debug` form: chain,
/// protocol, source, destination, source port, destination port and action.
pub open spec fn spec_rule_key(r: FwView) -> Seq<char> {
    r.chain + "|"@ + debug_opt_text(r.protocol) + "|"@ + debug_opt_cidr(r.source) + "|"@
        + debug_opt_cidr(r.destination) + "|"@ + debug_opt_port(r.source_port) + "|"@
        + debug_opt_port(r.destination_port) + "|"@ + spec_policy_action_name(r.action)
}

fn push_opt_text(out: &mut String, o: &Option<String>)
    ensures
        final(out)@ == old(out)@ + debug_opt_text(opt_seq(*o)),
{
    let ghost start = out@;
    match o {
        Some(s) => {
            out.append("Some(");
            let d = debug_str(s.as_str());
            out.append(d.as_str());
            out.append(")");
        },
        None => {
            out.append("None");
        },
    }
    assert(out@ =~= start + debug_opt_text(opt_seq(*o)));
}

fn push_opt_cidr(out: &mut String, o: Option<CidrBlock>)
    ensures
        final(out)@ == old(out)@ + debug_opt_cidr(o),
{
    let ghost start = out@;
    match o {
        Some(c) => {
            out.append("Some(CidrBlock { network: Ipv4AddrExt(");
            push_dec(out, c.network.0 as u64);
            out.append("), prefix: ");
            push_dec(out, c.prefix as u64);
            out.append(" })");
        },
        None => {
            out.append("None");
        },
    }
    assert(out@ =~= start + debug_opt_cidr(o));
}

fn push_opt_port(out: &mut String, o: Option<u16>)
    ensures
        final(out)@ == old(out)@ + debug_opt_port(o),
{
    let ghost start = out@;
    match o {
        Some(p) => {
            out.append("Some(");
            push_dec(out, p as u64);
            out.append(")");
        },
        None => {
            out.append("None");
        },
    }
    assert(out@ =~= start + debug_opt_port(o));
}

fn opt_text_eq(a: &Option<String>, b: &Option<String>) -> (r: bool)
    ensures
        r == (opt_seq(*a) == opt_seq(*b)),
{
    match (a, b) {
        (Some(x), Some(y)) => {
            let xc = chars_of(x.as_str());
            let yc = chars_of(y.as_str());
            chars_eq(xc.as_slice(), yc.as_slice())
        },
        (None, None) => true,
        _ => false,
    }
}

fn cidr_overlaps(a: Option<CidrBlock>, b: Option<CidrBlock>) -> (r: bool)
    ensures
        r == spec_cidr_overlaps(a, b),
{
    match (a, b) {
        (Some(x), Some(y)) => x.contains(y.network) || y.contains(x.network),
        _ => true,
    }
}

impl FirewallRule {
    /// Whether some traffic could match both rules.
    pub fn overlaps(&self, other: &Self) -> (r: bool)
        ensures
            r == spec_overlaps(self@, other@),
    {
        let a = chars_of(self.chain.as_str());
        let b = chars_of(other.chain.as_str());
        if !chars_eq(a.as_slice(), b.as_slice()) {
            return false;
        }
        if self.protocol.is_some() && other.protocol.is_some() && !opt_text_eq(
            &self.protocol,
            &other.protocol,
        ) {
            return false;
        }
        if self.destination_port.is_some() && other.destination_port.is_some()
            && self.destination_port != other.destination_port {
            return false;
        }
        if self.source_port.is_some() && other.source_port.is_some() && self.source_port
            != other.source_port {
            return false;
        }
        cidr_overlaps(self.source, other.source) && cidr_overlaps(
            self.destination,
            other.destination,
        )
    }

    /// The text duplicates are found by.
    pub fn normalized_key(&self) -> (r: String)
        ensures
            r@ == spec_rule_key(self@),
    {
        let mut out = self.chain.clone();
        out.append("|");
        push_opt_text(&mut out, &self.protocol);
        out.append("|");
        push_opt_cidr(&mut out, self.source);
        out.append("|");
        push_opt_cidr(&mut out, self.destination);
        out.append("|");
        push_opt_port(&mut out, self.source_port);
        out.append("|");
        push_opt_port(&mut out, self.destination_port);
        out.append("|");
        out.append(self.action.as_str());
        out
    }
}

/// Overlap does not depend on which rule is asked about the other.
pub proof fn law_overlaps_symmetric(a: FwView, b: FwView)
    ensures
        spec_overlaps(a, b) == spec_overlaps(b, a),
{
}

/// A local policy: firewall rules in order, and `key, value` settings.
#[derive(Debug, Clone, PartialEq, Eq)]
pub struct LocalPolicy {
    pub rules: Vec<FirewallRule>,
    pub settings: Vec<(String, String)>,
}

pub ghost struct PolicyView {
    pub rules: Seq<FwView>,
    pub settings: Seq<(Seq<char>, Seq<char>)>,
}

pub open spec fn setting_views(v: Seq<(String, String)>) -> Seq<(Seq<char>, Seq<char>)> {
    v.map_values(|p: (String, String)| (p.0@, p.1@))
}

impl View for LocalPolicy {
    type V = PolicyView;

    open spec fn view(&self) -> PolicyView {
        PolicyView { rules: fw_views(self.rules@), settings: setting_views(self.settings@) }
    }
}

} // verus!
