use vstd::prelude::*;
use vstd::string::*;
use crate::common::status::Severity;
use crate::common::text::{
    chars_of, eq_ignore_case, eq_str, lower_chars, lower_seq, parse_u32, parse_unsigned, string_of,
};

verus! {

/// What an IDS rule does when it matches.
#[derive(Debug, Clone, PartialEq, Eq)]
pub enum RuleAction {
    Alert,
    Pass,
    Drop,
    Reject,
    Log,
    Unknown(String),
}

pub ghost enum ActionView {
    Alert,
    Pass,
    Drop,
    Reject,
    Log,
    Unknown(Seq<char>),
}

impl View for RuleAction {
    type V = ActionView;

    open spec fn view(&self) -> ActionView {
        match self {
            RuleAction::Alert => ActionView::Alert,
            RuleAction::Pass => ActionView::Pass,
            RuleAction::Drop => ActionView::Drop,
            RuleAction::Reject => ActionView::Reject,
            RuleAction::Log => ActionView::Log,
            RuleAction::Unknown(s) => ActionView::Unknown(s@),
        }
    }
}

/// The action a token names, case-insensitively; an unknown token is kept in lower case.
pub open spec fn spec_action_from(token: Seq<char>) -> ActionView {
    let l = lower_seq(token);
    if l == "alert"@ {
        ActionView::Alert
    } else if l == "pass"@ {
        ActionView::Pass
    } else if l == "drop"@ {
        ActionView::Drop
    } else if l == "reject"@ {
        ActionView::Reject
    } else if l == "log"@ {
        ActionView::Log
    } else {
        ActionView::Unknown(l)
    }
}

pub open spec fn spec_action_name(a: ActionView) -> Seq<char> {
    match a {
        ActionView::Alert => "alert"@,
        ActionView::Pass => "pass"@,
        ActionView::Drop => "drop"@,
        ActionView::Reject => "reject"@,
        ActionView::Log => "log"@,
        ActionView::Unknown(s) => s,
    }
}

impl RuleAction {
    pub fn from_token(token: &str) -> (r: Self)
        ensures
            r@ == spec_action_from(token@),
    {
        let t = chars_of(token);
        Self::from_chars(t.as_slice())
    }

    /// `from_token` on the characters of the token.
    pub fn from_chars(t: &[char]) -> (r: Self)
        ensures
            r@ == spec_action_from(t@),
    {
        let l = lower_chars(t);
        if eq_str(l.as_slice(), "alert") {
            RuleAction::Alert
        } else if eq_str(l.as_slice(), "pass") {
            RuleAction::Pass
        } else if eq_str(l.as_slice(), "drop") {
            RuleAction::Drop
        } else if eq_str(l.as_slice(), "reject") {
            RuleAction::Reject
        } else if eq_str(l.as_slice(), "log") {
            RuleAction::Log
        } else {
            RuleAction::Unknown(string_of(l.as_slice()))
        }
    }

    pub fn as_str(&self) -> (r: &str)
        ensures
            r@ == spec_action_name(self@),
    {
        match self {
            RuleAction::Alert => "alert",
            RuleAction::Pass => "pass",
            RuleAction::Drop => "drop",
            RuleAction::Reject => "reject",
            RuleAction::Log => "log",
            RuleAction::Unknown(value) => value.as_str(),
        }
    }
}

/// The ports a rule applies to: any port, or a list of inclusive ranges, either of them
/// possibly negated.
#[derive(Debug, Clone, PartialEq, Eq)]
pub struct PortSpec {
    pub any: bool,
    pub negated: bool,
    pub ranges: Vec<(u16, u16)>,
}

pub ghost struct PortView {
    pub any: bool,
    pub negated: bool,
    pub ranges: Seq<(u16, u16)>,
}

impl View for PortSpec {
    type V = PortView;

    open spec fn view(&self) -> PortView {
        PortView { any: self.any, negated: self.negated, ranges: self.ranges@ }
    }
}

/// Some range holds the port.
pub open spec fn port_in_ranges(ranges: Seq<(u16, u16)>, port: u16) -> bool {
    exists|i: int| 0 <= i < ranges.len() && (#[trigger] ranges[i]).0 <= port <= ranges[i].1
}

pub open spec fn spec_port_contains(p: PortView, port: u16) -> bool {
    if p.any {
        !p.negated
    } else if p.negated {
        !port_in_ranges(p.ranges, port)
    } else {
        port_in_ranges(p.ranges, port)
    }
}

impl PortSpec {
    pub fn any() -> (r: Self)
        ensures
            r@ == (PortView { any: true, negated: false, ranges: Seq::empty() }),
    {
        PortSpec { any: true, negated: false, ranges: Vec::new() }
    }

    pub fn contains(&self, port: u16) -> (r: bool)
        ensures
            r == spec_port_contains(self@, port),
    {
        if self.any {
            return !self.negated;
        }
        let mut hit = false;
        let mut i: usize = 0;
        while i < self.ranges.len()
            invariant
                i <= self.ranges@.len(),
                hit == exists|j: int|
                    0 <= j < i && (#[trigger] self.ranges@[j]).0 <= port <= self.ranges@[j].1,
            decreases self.ranges@.len() - i,
        {
            let (start, end) = self.ranges[i];
            if port >= start && port <= end {
                hit = true;
            }
            i = i + 1;
        }
        if self.negated {
            !hit
        } else {
            hit
        }
    }
}

/// An address field of a rule, kept as written.
#[derive(Debug, Clone, PartialEq, Eq)]
pub struct AddressSpec {
    pub raw: String,
}

/// One `key` or `key:value` option of a rule.
#[derive(Debug, Clone, PartialEq, Eq)]
pub struct RuleOption {
    pub key: String,
    pub value: Option<String>,
}

pub ghost struct OptionView {
    pub key: Seq<char>,
    pub value: Option<Seq<char>>,
}

pub open spec fn opt_string_view(o: Option<String>) -> Option<Seq<char>> {
    match o {
        Some(s) => Some(s@),
        None => None,
    }
}

pub open spec fn opt_str_view(o: Option<&str>) -> Option<Seq<char>> {
    match o {
        Some(s) => Some(s@),
        None => None,
    }
}

impl View for RuleOption {
    type V = OptionView;

    open spec fn view(&self) -> OptionView {
        OptionView { key: self.key@, value: opt_string_view(self.value) }
    }
}

pub open spec fn option_views(v: Seq<RuleOption>) -> Seq<OptionView> {
    v.map_values(|o: RuleOption| o@)
}

/// A parsed IDS rule.
#[derive(Debug, Clone, PartialEq, Eq)]
pub struct IdsRule {
    pub action: RuleAction,
    pub protocol: String,
    pub source: AddressSpec,
    pub source_ports: PortSpec,
    pub direction: String,
    pub destination: AddressSpec,
    pub destination_ports: PortSpec,
    pub options: Vec<RuleOption>,
    pub raw: String,
}

pub ghost struct RuleView {
    pub action: ActionView,
    pub protocol: Seq<char>,
    pub source: Seq<char>,
    pub source_ports: PortView,
    pub direction: Seq<char>,
    pub destination: Seq<char>,
    pub destination_ports: PortView,
    pub options: Seq<OptionView>,
    pub raw: Seq<char>,
}

impl View for IdsRule {
    type V = RuleView;

    open spec fn view(&self) -> RuleView {
        RuleView {
            action: self.action@,
            protocol: self.protocol@,
            source: self.source.raw@,
            source_ports: self.source_ports@,
            direction: self.direction@,
            destination: self.destination.raw@,
            destination_ports: self.destination_ports@,
            options: option_views(self.options@),
            raw: self.raw@,
        }
    }
}

/// The option's key equals `key`, ignoring ASCII case.
pub open spec fn key_matches(o: OptionView, key: Seq<char>) -> bool {
    lower_seq(o.key) == lower_seq(key)
}

/// The value of the first option whose key is `key` (ignoring case); `None` where there
/// is no such option or it has no value.
pub open spec fn spec_option_value(opts: Seq<OptionView>, key: Seq<char>) -> Option<Seq<char>>
    decreases opts.len(),
{
    if opts.len() == 0 {
        None
    } else if key_matches(opts[0], key) {
        opts[0].value
    } else {
        spec_option_value(opts.skip(1), key)
    }
}

/// The option's value read as a `u32` the way `str::parse` reads it.
pub open spec fn spec_number_option(opts: Seq<OptionView>, key: Seq<char>) -> Option<nat> {
    match spec_option_value(opts, key) {
        Some(v) => parse_unsigned(v, 0xffff_ffff),
        None => None,
    }
}

/// The values of all `content` options that have one, in order.
pub open spec fn spec_contents(opts: Seq<OptionView>) -> Seq<Seq<char>>
    decreases opts.len(),
{
    if opts.len() == 0 {
        Seq::empty()
    } else {
        let rest = spec_contents(opts.skip(1));
        if key_matches(opts[0], "content"@) && opts[0].value is Some {
            seq![opts[0].value->0] + rest
        } else {
            rest
        }
    }
}

/// The severity a rule's `classtype` suggests.
pub open spec fn spec_severity_hint(opts: Seq<OptionView>) -> Severity {
    let c = match spec_option_value(opts, "classtype"@) {
        Some(v) => v,
        None => Seq::empty(),
    };
    if c == "attempted-admin"@ || c == "trojan-activity"@ || c == "successful-admin"@ {
        Severity::High
    } else if c == "attempted-dos"@ || c == "web-application-attack"@ || c == "network-scan"@ {
        Severity::Medium
    } else if c == "policy-violation"@ || c == "misc-activity"@ {
        Severity::Low
    } else {
        Severity::Info
    }
}

pub open spec fn str_views(v: Seq<&str>) -> Seq<Seq<char>> {
    v.map_values(|s: &str| s@)
}

impl IdsRule {
    pub fn option_value(&self, key: &str) -> (r: Option<&str>)
        ensures
            opt_str_view(r) == spec_option_value(self@.options, key@),
    {
        let k = chars_of(key);
        let ghost opts = self@.options;
        let mut i: usize = 0;
        assert(opts.skip(0) =~= opts);
        while i < self.options.len()
            invariant
                i <= self.options@.len(),
                opts == option_views(self.options@),
                k@ == key@,
                spec_option_value(opts.skip(i as int), key@) == spec_option_value(opts, key@),
            decreases self.options@.len() - i,
        {
            let opt = &self.options[i];
            let kc = chars_of(opt.key.as_str());
            let ghost t = opts.skip(i as int);
            assert(t[0] == opts[i as int]);
            if eq_ignore_case(kc.as_slice(), k.as_slice()) {
                return match &opt.value {
                    Some(v) => Some(v.as_str()),
                    None => None,
                };
            }
            assert(t.skip(1) =~= opts.skip(i + 1));
            i = i + 1;
        }
        None
    }

    pub fn sid(&self) -> (r: Option<u32>)
        ensures
            r matches Some(v) ==> spec_number_option(self@.options, "sid"@) == Some(v as nat),
            r is None ==> spec_number_option(self@.options, "sid"@) is None,
    {
        self.number_option("sid")
    }

    pub fn rev(&self) -> (r: Option<u32>)
        ensures
            r matches Some(v) ==> spec_number_option(self@.options, "rev"@) == Some(v as nat),
            r is None ==> spec_number_option(self@.options, "rev"@) is None,
    {
        self.number_option("rev")
    }

    fn number_option(&self, key: &str) -> (r: Option<u32>)
        ensures
            r matches Some(v) ==> spec_number_option(self@.options, key@) == Some(v as nat),
            r is None ==> spec_number_option(self@.options, key@) is None,
    {
        match self.option_value(key) {
            Some(v) => {
                let c = chars_of(v);
                parse_u32(c.as_slice())
            },
            None => None,
        }
    }

    pub fn msg(&self) -> (r: Option<&str>)
        ensures
            opt_str_view(r) == spec_option_value(self@.options, "msg"@),
    {
        self.option_value("msg")
    }

    pub fn contents(&self) -> (r: Vec<&str>)
        ensures
            str_views(r@) == spec_contents(self@.options),
    {
        let ghost opts = self@.options;
        let mut out: Vec<&str> = Vec::new();
        let mut i: usize = 0;
        assert(opts.skip(0) =~= opts);
        assert(str_views(out@) + spec_contents(opts) =~= spec_contents(opts));
        while i < self.options.len()
            invariant
                i <= self.options@.len(),
                opts == option_views(self.options@),
                str_views(out@) + spec_contents(opts.skip(i as int)) == spec_contents(opts),
            decreases self.options@.len() - i,
        {
            let opt = &self.options[i];
            let kc = chars_of(opt.key.as_str());
            let ghost t = opts.skip(i as int);
            let ghost before = str_views(out@);
            assert(t[0] == opts[i as int]);
            assert(t.skip(1) =~= opts.skip(i + 1));
            if eq_str(lower_chars(kc.as_slice()).as_slice(), "content") {
                assert(lower_seq("content"@) =~= "content"@) by {
                    reveal_strlit("content");
                }
                match &opt.value {
                    Some(v) => {
                        out.push(v.as_str());
                        assert(str_views(out@) =~= before.push(v@));
                        assert(before + spec_contents(t) =~= str_views(out@) + spec_contents(
                            opts.skip(i + 1),
                        ));
                    },
                    None => {},
                }
            } else {
                assert(lower_seq("content"@) =~= "content"@) by {
                    reveal_strlit("content");
                }
            }
            i = i + 1;
        }
        assert(opts.skip(i as int) =~= Seq::<OptionView>::empty());
        assert(str_views(out@) + spec_contents(opts.skip(i as int)) =~= str_views(out@));
        out
    }

    pub fn severity_hint(&self) -> (r: Severity)
        ensures
            r == spec_severity_hint(self@.options),
    {
        let c = match self.option_value("classtype") {
            Some(v) => chars_of(v),
            None => Vec::new(),
        };
        let s = c.as_slice();
        if eq_str(s, "attempted-admin") || eq_str(s, "trojan-activity") || eq_str(
            s,
            "successful-admin",
        ) {
            Severity::High
        } else if eq_str(s, "attempted-dos") || eq_str(s, "web-application-attack") || eq_str(
            s,
            "network-scan",
        ) {
            Severity::Medium
        } else if eq_str(s, "policy-violation") || eq_str(s, "misc-activity") {
            Severity::Low
        } else {
            Severity::Info
        }
    }
}

/// Negating a port field gives exactly the ports it did not hold; `any` holds every port and
/// a list holds the ports that lie in one of its ranges.
pub proof fn law_port_negation(p: PortView, port: u16)
    ensures
        spec_port_contains(PortView { negated: true, ..p }, port) == !spec_port_contains(
            PortView { negated: false, ..p },
            port,
        ),
        p.any && !p.negated ==> spec_port_contains(p, port),
        !p.any && !p.negated ==> (spec_port_contains(p, port) <==> exists|i: int|
            0 <= i < p.ranges.len() && p.ranges[i].0 <= port && port <= p.ranges[i].1),
{
}

} // verus!
