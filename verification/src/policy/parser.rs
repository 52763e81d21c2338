use vstd::prelude::*;
use vstd::string::*;
use crate::common::strings::{spec_split_csv, split_csv_line};
use crate::common::text::{
    CharSet, chars_of, find_char, find_in, has_char, lemma_find_char, lines, lines_of, lower_seq,
    lower_string, string_of, trim, trim_set, trim_slice, trim_ws,
};
use crate::policy::firewall::{parse_iptables_line, parse_nft_line, spec_parse_iptables, spec_parse_nft};
use crate::policy::model::{FirewallRule, FwView, LocalPolicy, PolicyView, fw_views, setting_views};

verus! {

/// The text with every `"` trimmed off both ends.
pub open spec fn strip_dq(s: Seq<char>) -> Seq<char> {
    trim_set(s, CharSet::One('"'))
}

/// A setting line: `key = value`, `{"key": "value"}`, or `key, value, ...`; the key is
/// lower-cased, and quotes are trimmed off keys and values except in the CSV form.
pub open spec fn spec_parse_setting(l: Seq<char>) -> Option<(Seq<char>, Seq<char>)> {
    match find_char(l, '=') {
        Some(k) => Some((lower_seq(trim(l.take(k))), strip_dq(trim(l.skip(k + 1))))),
        None => {
            let braced = l.len() > 0 && l[0] == '{' && l.last() == '}';
            let inner = l.subrange(1, l.len() - 1);
            if braced && find_char(inner, ':') is Some {
                let k = find_char(inner, ':')->0;
                Some(
                    (
                        lower_seq(strip_dq(trim(inner.take(k)))),
                        strip_dq(trim(inner.skip(k + 1))),
                    ),
                )
            } else if l.contains(',') && spec_split_csv(l).len() >= 2 {
                Some((lower_seq(spec_split_csv(l)[0]), spec_split_csv(l)[1]))
            } else {
                None
            }
        },
    }
}

fn key_value_at(l: &[char], k: usize, key_quotes: bool) -> (r: (String, String))
    requires
        k < l@.len(),
    ensures
        key_quotes ==> r.0@ == lower_seq(strip_dq(trim(l@.take(k as int)))),
        !key_quotes ==> r.0@ == lower_seq(trim(l@.take(k as int))),
        r.1@ == strip_dq(trim(l@.skip(k + 1))),
{
    let n = l.len();
    let head = &l[0..k];
    let start: usize = k + 1;
    let tail = &l[start..n];
    assert(head@ =~= l@.take(k as int));
    assert(tail@ =~= l@.skip(k + 1));
    let kt = trim_ws(head);
    let key = if key_quotes {
        lower_string(trim_slice(kt, CharSet::One('"')))
    } else {
        lower_string(kt)
    };
    let value = string_of(trim_slice(trim_ws(tail), CharSet::One('"')));
    (key, value)
}

/// A `key`/`value` setting from a line that is no rule.
pub fn parse_setting(l: &[char]) -> (r: Option<(String, String)>)
    ensures
        match r {
            Some((k, v)) => spec_parse_setting(l@) == Some((k@, v@)),
            None => spec_parse_setting(l@) is None,
        },
{
    proof {
        lemma_find_char(l@, '=');
    }
    match find_in(l, '=') {
        Some(k) => {
            assert(find_char(l@, '=') == Some(k as int));
            return Some(key_value_at(l, k, false));
        },
        None => {},
    }
    let n = l.len();
    if n > 0 && l[0] == '{' && l[n - 1] == '}' {
        let inner = &l[1..n - 1];
        assert(inner@ =~= l@.subrange(1, l@.len() - 1));
        proof {
            lemma_find_char(inner@, ':');
        }
        match find_in(inner, ':') {
            Some(k) => {
                assert(find_char(inner@, ':') == Some(k as int));
                return Some(key_value_at(inner, k, true));
            },
            None => {},
        }
    }
    if has_char(l, ',') {
        let fields = split_csv_line(l);
        if fields.len() >= 2 {
            assert(fields@[0]@ == spec_split_csv(l@)[0]);
            assert(fields@[1]@ == spec_split_csv(l@)[1]);
            let f0 = chars_of(fields[0].as_str());
            return Some((lower_string(f0.as_slice()), fields[1].clone()));
        }
    }
    None
}

/// The rules and settings of the lines from `idx` on: blank lines and `#` comments are
/// skipped, a line that is an iptables or else an nftables rule gives a rule numbered by
/// its line, and any other line may give a setting.
pub open spec fn policy_from(ls: Seq<Seq<char>>, idx: int) -> PolicyView
    decreases ls.len(),
{
    if ls.len() == 0 {
        PolicyView { rules: Seq::empty(), settings: Seq::empty() }
    } else {
        let t = trim(ls[0]);
        let rest = policy_from(ls.skip(1), idx + 1);
        if t.len() == 0 || t[0] == '#' {
            rest
        } else {
            match spec_parse_iptables(idx as usize, t) {
                Some(r) => PolicyView { rules: seq![r] + rest.rules, settings: rest.settings },
                None => match spec_parse_nft(idx as usize, t) {
                    Some(r) => PolicyView { rules: seq![r] + rest.rules, settings: rest.settings },
                    None => match spec_parse_setting(t) {
                        Some(kv) => PolicyView {
                            rules: rest.rules,
                            settings: seq![kv] + rest.settings,
                        },
                        None => rest,
                    },
                },
            }
        }
    }
}

pub open spec fn prepend_policy(
    rules: Seq<FwView>,
    settings: Seq<(Seq<char>, Seq<char>)>,
    p: PolicyView,
) -> PolicyView {
    PolicyView { rules: rules + p.rules, settings: settings + p.settings }
}

proof fn lemma_prepend_rule(
    rv: Seq<FwView>,
    sv: Seq<(Seq<char>, Seq<char>)>,
    r: FwView,
    rest: PolicyView,
)
    ensures
        prepend_policy(rv, sv, PolicyView { rules: seq![r] + rest.rules, settings: rest.settings })
            == prepend_policy(rv.push(r), sv, rest),
{
    assert(rv + (seq![r] + rest.rules) =~= rv.push(r) + rest.rules);
}

proof fn lemma_prepend_setting(
    rv: Seq<FwView>,
    sv: Seq<(Seq<char>, Seq<char>)>,
    kv: (Seq<char>, Seq<char>),
    rest: PolicyView,
)
    ensures
        prepend_policy(rv, sv, PolicyView { rules: rest.rules, settings: seq![kv] + rest.settings })
            == prepend_policy(rv, sv.push(kv), rest),
{
    assert(sv + (seq![kv] + rest.settings) =~= sv.push(kv) + rest.settings);
}

/// Reads a policy export: firewall rules and settings, line by line.
pub fn parse_policy_text(input: &str) -> (r: LocalPolicy)
    ensures
        r@ == policy_from(lines(input@), 0),
{
    let ls = lines_of(input);
    let ghost lv = ls.deep_view();
    let mut rules: Vec<FirewallRule> = Vec::new();
    let mut settings: Vec<(String, String)> = Vec::new();
    let mut i: usize = 0;
    assert(lv.skip(0) =~= lv);
    assert(prepend_policy(fw_views(rules@), setting_views(settings@), policy_from(lv, 0))
        =~= policy_from(lv, 0));
    while i < ls.len()
        invariant
            i <= ls@.len(),
            lv == ls.deep_view(),
            prepend_policy(
                fw_views(rules@),
                setting_views(settings@),
                policy_from(lv.skip(i as int), i as int),
            ) == policy_from(lv, 0),
        decreases ls@.len() - i,
    {
        let ghost q = lv.skip(i as int);
        let ghost rv = fw_views(rules@);
        let ghost sv = setting_views(settings@);
        assert(q[0] == ls@[i as int]@);
        assert(q.skip(1) =~= lv.skip(i + 1));
        let t = trim_ws(ls[i].as_slice());
        if t.len() > 0 && t[0] != '#' {
            let text = string_of(t);
            let line = text.as_str();
            let ghost rest = policy_from(lv.skip(i + 1), i + 1);
            match parse_iptables_line(i, line) {
                Some(rule) => {
                    let ghost rw = rule@;
                    rules.push(rule);
                    assert(fw_views(rules@) =~= rv.push(rw));
                    proof {
                        lemma_prepend_rule(rv, sv, rw, rest);
                    }
                },
                None => match parse_nft_line(i, line) {
                    Some(rule) => {
                        let ghost rw = rule@;
                        rules.push(rule);
                        assert(fw_views(rules@) =~= rv.push(rw));
                        proof {
                            lemma_prepend_rule(rv, sv, rw, rest);
                        }
                    },
                    None => match parse_setting(t) {
                        Some(kv) => {
                            let ghost kvv = (kv.0@, kv.1@);
                            settings.push(kv);
                            assert(setting_views(settings@) =~= sv.push(kvv));
                            proof {
                                lemma_prepend_setting(rv, sv, kvv, rest);
                            }
                        },
                        None => {},
                    },
                },
            }
        }
        i = i + 1;
    }
    assert(lv.skip(i as int) =~= Seq::<Seq<char>>::empty());
    assert(prepend_policy(fw_views(rules@), setting_views(settings@), policy_from(
        lv.skip(i as int),
        i as int,
    )) =~= PolicyView { rules: fw_views(rules@), settings: setting_views(settings@) });
    LocalPolicy { rules, settings }
}

} // verus!
