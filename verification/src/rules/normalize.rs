use vstd::prelude::*;
use vstd::string::*;
use crate::common::counts::{
    chars_lt, lemma_lt_irreflexive, lemma_lt_total, lemma_lt_transitive, seq_lt,
};
use crate::common::text::{chars_of, dec, eq_str, is_ascii_ws, is_ascii_whitespace, push_char, push_dec};
use crate::rules::model::{
    IdsRule, OptionView, PortSpec, PortView, RuleOption, option_views, spec_action_name,
};

verus! {

// ---------------------------------------------------------------------
// Option order
// ---------------------------------------------------------------------

/// Where an option key goes in a normalized rule: `msg`, `flow`, `content`, `classtype`,
/// `sid`, `rev`, then everything else.
pub open spec fn spec_option_order(key: Seq<char>) -> nat {
    if key == "msg"@ {
        0
    } else if key == "flow"@ {
        1
    } else if key == "content"@ {
        2
    } else if key == "classtype"@ {
        3
    } else if key == "sid"@ {
        4
    } else if key == "rev"@ {
        5
    } else {
        10
    }
}

/// `a` sorts strictly before `b`: by the key's order, then by the key itself.
pub open spec fn sorts_before(a: OptionView, b: OptionView) -> bool {
    spec_option_order(a.key) < spec_option_order(b.key) || (spec_option_order(a.key)
        == spec_option_order(b.key) && seq_lt(a.key, b.key))
}

/// `x` put into `s` in front of the first element it sorts strictly before.
pub open spec fn insert_sorted(s: Seq<OptionView>, x: OptionView) -> Seq<OptionView>
    decreases s.len(),
{
    if s.len() == 0 {
        seq![x]
    } else if sorts_before(x, s[0]) {
        seq![x] + s
    } else {
        seq![s[0]] + insert_sorted(s.skip(1), x)
    }
}

/// The options in normalized order; options that compare equal keep their order.
pub open spec fn sort_options(s: Seq<OptionView>) -> Seq<OptionView>
    decreases s.len(),
{
    if s.len() == 0 {
        Seq::empty()
    } else {
        insert_sorted(sort_options(s.drop_last()), s.last())
    }
}

pub proof fn lemma_insert_at(s: Seq<OptionView>, x: OptionView, j: int)
    requires
        0 <= j <= s.len(),
        forall|k: int| 0 <= k < j ==> !sorts_before(x, #[trigger] s[k]),
        j < s.len() ==> sorts_before(x, s[j]),
    ensures
        insert_sorted(s, x) == s.insert(j, x),
    decreases s.len(),
{
    if s.len() == 0 {
        assert(s.insert(j, x) =~= seq![x]);
    } else if j == 0 {
        assert(s.insert(0, x) =~= seq![x] + s);
    } else {
        let t = s.skip(1);
        assert(!sorts_before(x, s[0]));
        assert forall|k: int| 0 <= k < j - 1 implies !sorts_before(x, #[trigger] t[k]) by {
            assert(t[k] == s[k + 1]);
        }
        if j - 1 < t.len() {
            assert(t[j - 1] == s[j]);
        }
        lemma_insert_at(t, x, j - 1);
        assert(seq![s[0]] + t.insert(j - 1, x) =~= s.insert(j, x));
    }
}

/// No option sorts strictly before one that comes ahead of it.
pub open spec fn options_sorted(s: Seq<OptionView>) -> bool {
    forall|i: int, j: int| 0 <= i < j < s.len() ==> !sorts_before(#[trigger] s[j], #[trigger] s[i])
}

proof fn lemma_sorts_before_order(a: OptionView, b: OptionView, c: OptionView)
    ensures
        !sorts_before(a, a),
        !(sorts_before(a, b) && sorts_before(b, a)),
        sorts_before(a, b) && sorts_before(b, c) ==> sorts_before(a, c),
{
    lemma_lt_irreflexive(a.key);
    lemma_lt_total(a.key, b.key);
    if sorts_before(a, b) && sorts_before(b, c) && seq_lt(a.key, b.key) && seq_lt(b.key, c.key) {
        lemma_lt_transitive(a.key, b.key, c.key);
    }
}

proof fn lemma_insert_sorted(t: Seq<OptionView>, x: OptionView)
    requires
        options_sorted(t),
    ensures
        options_sorted(insert_sorted(t, x)),
        insert_sorted(t, x).to_multiset() == t.to_multiset().insert(x),
        insert_sorted(t, x).len() == t.len() + 1,
        forall|i: int|
            0 <= i < insert_sorted(t, x).len() ==> #[trigger] insert_sorted(t, x)[i] == x
                || t.contains(insert_sorted(t, x)[i]),
    decreases t.len(),
{
    broadcast use vstd::multiset::group_multiset_axioms;

    let r = insert_sorted(t, x);
    if t.len() == 0 {
        assert(r =~= t.insert(0, x));
        vstd::seq_lib::to_multiset_insert(t, 0, x);
    } else if sorts_before(x, t[0]) {
        assert(r =~= t.insert(0, x));
        vstd::seq_lib::to_multiset_insert(t, 0, x);
        assert forall|i: int, j: int| 0 <= i < j < r.len() implies !sorts_before(
            #[trigger] r[j],
            #[trigger] r[i],
        ) by {
            if i == 0 {
                lemma_sorts_before_order(r[j], x, t[0]);
                if j - 1 > 0 {
                    assert(!sorts_before(t[j - 1], t[0]));
                }
                lemma_sorts_before_order(t[0], t[0], t[0]);
            } else {
                assert(r[i] == t[i - 1] && r[j] == t[j - 1]);
            }
        }
        assert forall|i: int| 0 <= i < r.len() implies #[trigger] r[i] == x || t.contains(r[i]) by {
            if i > 0 {
                assert(r[i] == t[i - 1]);
            }
        }
    } else {
        let u = t.skip(1);
        assert forall|i: int, j: int| 0 <= i < j < u.len() implies !sorts_before(
            #[trigger] u[j],
            #[trigger] u[i],
        ) by {
            assert(u[i] == t[i + 1] && u[j] == t[j + 1]);
        }
        lemma_insert_sorted(u, x);
        let r1 = insert_sorted(u, x);
        assert(r =~= seq![t[0]] + r1);
        assert(t =~= seq![t[0]] + u);
        vstd::seq_lib::lemma_multiset_commutative(seq![t[0]], r1);
        vstd::seq_lib::lemma_multiset_commutative(seq![t[0]], u);
        assert(r.to_multiset() =~= t.to_multiset().insert(x));
        assert forall|i: int, j: int| 0 <= i < j < r.len() implies !sorts_before(
            #[trigger] r[j],
            #[trigger] r[i],
        ) by {
            if i == 0 {
                assert(r[j] == r1[j - 1]);
                if r1[j - 1] != x {
                    assert(u.contains(r1[j - 1]));
                    let k = choose|k: int| 0 <= k < u.len() && u[k] == r1[j - 1];
                    assert(u[k] == t[k + 1]);
                }
            } else {
                assert(r[i] == r1[i - 1] && r[j] == r1[j - 1]);
            }
        }
        assert forall|i: int| 0 <= i < r.len() implies #[trigger] r[i] == x || t.contains(r[i]) by {
            if i == 0 {
                assert(t[0] == r[0]);
            } else {
                assert(r[i] == r1[i - 1]);
                if r1[i - 1] != x {
                    let k = choose|k: int| 0 <= k < u.len() && u[k] == r1[i - 1];
                    assert(t[k + 1] == r[i]);
                }
            }
        }
    }
}

/// Normalization orders the options and keeps every one of them: no option comes after
/// one it sorts strictly before, and the options are the same, counted with repeats.
pub proof fn law_sort_options(s: Seq<OptionView>)
    ensures
        options_sorted(sort_options(s)),
        sort_options(s).to_multiset() == s.to_multiset(),
    decreases s.len(),
{
    broadcast use vstd::multiset::group_multiset_axioms;

    if s.len() == 0 {
        assert(sort_options(s) =~= s);
    } else {
        law_sort_options(s.drop_last());
        lemma_insert_sorted(sort_options(s.drop_last()), s.last());
        vstd::seq_lib::to_multiset_build(s.drop_last(), s.last());
        assert(s.drop_last().push(s.last()) =~= s);
    }
}

fn option_order(key: &[char]) -> (r: u8)
    ensures
        r == spec_option_order(key@),
{
    if eq_str(key, "msg") {
        0
    } else if eq_str(key, "flow") {
        1
    } else if eq_str(key, "content") {
        2
    } else if eq_str(key, "classtype") {
        3
    } else if eq_str(key, "sid") {
        4
    } else if eq_str(key, "rev") {
        5
    } else {
        10
    }
}

fn sorts_before_exec(a: &RuleOption, b: &RuleOption) -> (r: bool)
    ensures
        r == sorts_before(a@, b@),
{
    let ka = chars_of(a.key.as_str());
    let kb = chars_of(b.key.as_str());
    let oa = option_order(ka.as_slice());
    let ob = option_order(kb.as_slice());
    oa < ob || (oa == ob && chars_lt(ka.as_slice(), kb.as_slice()))
}

fn copy_option(o: &RuleOption) -> (r: RuleOption)
    ensures
        r@ == o@,
{
    RuleOption {
        key: o.key.clone(),
        value: match &o.value {
            Some(v) => Some(v.clone()),
            None => None,
        },
    }
}

/// The options in normalized order (a stable insertion sort).
pub fn sorted_options(opts: &Vec<RuleOption>) -> (r: Vec<RuleOption>)
    ensures
        option_views(r@) == sort_options(option_views(opts@)),
{
    let ghost ov = option_views(opts@);
    let mut out: Vec<RuleOption> = Vec::new();
    let mut i: usize = 0;
    assert(ov.take(0) =~= Seq::<OptionView>::empty());
    assert(option_views(out@) =~= sort_options(ov.take(0)));
    while i < opts.len()
        invariant
            i <= opts@.len(),
            ov == option_views(opts@),
            option_views(out@) == sort_options(ov.take(i as int)),
        decreases opts@.len() - i,
    {
        let x = &opts[i];
        let ghost sv = option_views(out@);
        let mut j: usize = 0;
        while j < out.len() && !sorts_before_exec(x, &out[j])
            invariant
                j <= out@.len(),
                sv == option_views(out@),
                forall|k: int| 0 <= k < j ==> !sorts_before(x@, #[trigger] sv[k]),
            decreases out@.len() - j,
        {
            j = j + 1;
        }
        proof {
            lemma_insert_at(sv, x@, j as int);
        }
        out.insert(j, copy_option(x));
        assert(ov.take(i + 1).drop_last() =~= ov.take(i as int));
        assert(ov.take(i + 1).last() == x@);
        assert(option_views(out@) =~= sv.insert(j as int, x@));
        i = i + 1;
    }
    assert(ov.take(opts@.len() as int) =~= ov);
    out
}

// ---------------------------------------------------------------------
// Rendering
// ---------------------------------------------------------------------

pub open spec fn has_ascii_ws(v: Seq<char>) -> bool {
    exists|i: int| 0 <= i < v.len() && is_ascii_ws(#[trigger] v[i])
}

/// The text with each `"` written as `\"`.
pub open spec fn escape_quotes(v: Seq<char>) -> Seq<char>
    decreases v.len(),
{
    if v.len() == 0 {
        Seq::empty()
    } else {
        escape_quotes(v.drop_last()) + if v.last() == '"' {
            seq!['\\', '"']
        } else {
            seq![v.last()]
        }
    }
}

/// `key;`, `key:value;`, or `key:"value";` where the value holds ASCII whitespace.
pub open spec fn spec_render_option(o: OptionView) -> Seq<char> {
    match o.value {
        Some(v) => if has_ascii_ws(v) {
            o.key + ":\""@ + escape_quotes(v) + "\";"@
        } else {
            o.key + ":"@ + v + ";"@
        },
        None => o.key + ";"@,
    }
}

/// The rendered options, separated by single spaces.
pub open spec fn join_options(s: Seq<OptionView>) -> Seq<char>
    decreases s.len(),
{
    if s.len() == 0 {
        Seq::empty()
    } else if s.len() == 1 {
        spec_render_option(s[0])
    } else {
        join_options(s.drop_last()) + " "@ + spec_render_option(s.last())
    }
}

pub open spec fn range_text(r: (u16, u16)) -> Seq<char> {
    if r.0 == r.1 {
        dec(r.0 as nat)
    } else {
        dec(r.0 as nat) + ":"@ + dec(r.1 as nat)
    }
}

/// The ranges, separated by commas.
pub open spec fn join_ranges(s: Seq<(u16, u16)>) -> Seq<char>
    decreases s.len(),
{
    if s.len() == 0 {
        Seq::empty()
    } else if s.len() == 1 {
        range_text(s[0])
    } else {
        join_ranges(s.drop_last()) + ","@ + range_text(s.last())
    }
}

/// A port field as a rule writes it.
pub open spec fn spec_render_ports(p: PortView) -> Seq<char> {
    if p.any {
        if p.negated {
            "!any"@
        } else {
            "any"@
        }
    } else {
        let r = join_ranges(p.ranges);
        if p.negated {
            "!["@ + r + "]"@
        } else if p.ranges.len() > 1 {
            "["@ + r + "]"@
        } else {
            r
        }
    }
}

fn push_escaped(out: &mut String, v: &[char])
    ensures
        final(out)@ == old(out)@ + escape_quotes(v@),
{
    let ghost start = out@;
    let mut i: usize = 0;
    assert(v@.take(0) =~= Seq::<char>::empty());
    while i < v.len()
        invariant
            i <= v@.len(),
            out@ == start + escape_quotes(v@.take(i as int)),
        decreases v@.len() - i,
    {
        let c = v[i];
        assert(v@.take(i + 1).drop_last() =~= v@.take(i as int));
        if c == '"' {
            push_char(out, '\\');
            push_char(out, '"');
        } else {
            push_char(out, c);
        }
        assert(out@ =~= start + escape_quotes(v@.take(i + 1)));
        i = i + 1;
    }
    assert(v@.take(v@.len() as int) =~= v@);
}

fn any_ascii_ws(v: &[char]) -> (r: bool)
    ensures
        r == has_ascii_ws(v@),
{
    let mut i: usize = 0;
    while i < v.len()
        invariant
            i <= v@.len(),
            forall|k: int| 0 <= k < i ==> !is_ascii_ws(#[trigger] v@[k]),
        decreases v@.len() - i,
    {
        if is_ascii_whitespace(v[i]) {
            assert(is_ascii_ws(v@[i as int]));
            return true;
        }
        i = i + 1;
    }
    false
}

/// One option as a normalized rule writes it.
fn render_option(option: &RuleOption) -> (r: String)
    ensures
        r@ == spec_render_option(option@),
{
    let mut out = option.key.clone();
    match &option.value {
        Some(v) => {
            let vc = chars_of(v.as_str());
            if any_ascii_ws(vc.as_slice()) {
                out.append(":\"");
                push_escaped(&mut out, vc.as_slice());
                out.append("\";");
            } else {
                out.append(":");
                out.append(v.as_str());
                out.append(";");
            }
        },
        None => {
            out.append(";");
        },
    }
    assert(out@ =~= spec_render_option(option@));
    out
}

fn push_options(out: &mut String, opts: &Vec<RuleOption>)
    ensures
        final(out)@ == old(out)@ + join_options(option_views(opts@)),
{
    let ghost start = out@;
    let ghost ov = option_views(opts@);
    let mut i: usize = 0;
    assert(ov.take(0) =~= Seq::<OptionView>::empty());
    while i < opts.len()
        invariant
            i <= opts@.len(),
            ov == option_views(opts@),
            out@ == start + join_options(ov.take(i as int)),
        decreases opts@.len() - i,
    {
        assert(ov.take(i + 1).drop_last() =~= ov.take(i as int));
        assert(ov.take(i + 1).last() == opts@[i as int]@);
        if i > 0 {
            out.append(" ");
        }
        let text = render_option(&opts[i]);
        out.append(text.as_str());
        assert(out@ =~= start + join_options(ov.take(i + 1)));
        i = i + 1;
    }
    assert(ov.take(opts@.len() as int) =~= ov);
}

fn push_range(out: &mut String, r: (u16, u16))
    ensures
        final(out)@ == old(out)@ + range_text(r),
{
    let ghost start = out@;
    push_dec(out, r.0 as u64);
    if r.0 != r.1 {
        out.append(":");
        push_dec(out, r.1 as u64);
    }
    assert(out@ =~= start + range_text(r));
}

fn push_ranges(out: &mut String, rs: &Vec<(u16, u16)>)
    ensures
        final(out)@ == old(out)@ + join_ranges(rs@),
{
    let ghost start = out@;
    let mut i: usize = 0;
    assert(rs@.take(0) =~= Seq::<(u16, u16)>::empty());
    while i < rs.len()
        invariant
            i <= rs@.len(),
            out@ == start + join_ranges(rs@.take(i as int)),
        decreases rs@.len() - i,
    {
        assert(rs@.take(i + 1).drop_last() =~= rs@.take(i as int));
        assert(rs@.take(i + 1).last() == rs@[i as int]);
        if i > 0 {
            out.append(",");
        }
        push_range(out, rs[i]);
        assert(out@ =~= start + join_ranges(rs@.take(i + 1)));
        i = i + 1;
    }
    assert(rs@.take(rs@.len() as int) =~= rs@);
}

/// A port field as a rule writes it.
fn render_ports(spec: &PortSpec) -> (r: String)
    ensures
        r@ == spec_render_ports(spec@),
{
    let mut out = String::new();
    if spec.any {
        if spec.negated {
            out.append("!any");
        } else {
            out.append("any");
        }
    } else if spec.negated {
        out.append("![");
        push_ranges(&mut out, &spec.ranges);
        out.append("]");
    } else if spec.ranges.len() > 1 {
        out.append("[");
        push_ranges(&mut out, &spec.ranges);
        out.append("]");
    } else {
        push_ranges(&mut out, &spec.ranges);
    }
    assert(out@ =~= spec_render_ports(spec@));
    out
}

/// The rule written in canonical form.
pub open spec fn spec_normalize_rule(r: crate::rules::model::RuleView) -> Seq<char> {
    spec_action_name(r.action) + " "@ + r.protocol + " "@ + r.source + " "@ + spec_render_ports(
        r.source_ports,
    ) + " "@ + r.direction + " "@ + r.destination + " "@ + spec_render_ports(r.destination_ports)
        + " ("@ + join_options(sort_options(r.options)) + ")"@
}

/// The rule in canonical form: header fields separated by single spaces, ports rewritten,
/// and the options sorted (`msg`, `flow`, `content`, `classtype`, `sid`, `rev`, then the
/// rest by key), each rendered as `key:value;`.
pub fn normalize_rule(rule: &IdsRule) -> (r: String)
    ensures
        r@ == spec_normalize_rule(rule@),
{
    let opts = sorted_options(&rule.options);
    let mut out = String::from_str(rule.action.as_str());
    out.append(" ");
    out.append(rule.protocol.as_str());
    out.append(" ");
    out.append(rule.source.raw.as_str());
    out.append(" ");
    out.append(render_ports(&rule.source_ports).as_str());
    out.append(" ");
    out.append(rule.direction.as_str());
    out.append(" ");
    out.append(rule.destination.raw.as_str());
    out.append(" ");
    out.append(render_ports(&rule.destination_ports).as_str());
    out.append(" (");
    push_options(&mut out, &opts);
    out.append(")");
    out
}

} // verus!
