use vstd::prelude::*;
use vstd::string::*;
use crate::common::status::{AegisError, AegisResult, ErrorView};
use crate::common::strings::{spec_strip_quotes, strip_quotes};
use crate::common::text::{
    CharSet, chars_of, dec, eq_str, find_char, find_in, lemma_deep_chars, lemma_find_char,
    lemma_rfind_char, lines, lines_of, lower_chars, lower_seq, lower_string, parse_u16,
    parse_unsigned, push_dec, rfind_char, rfind_in, split_set, split_slice, split_words,
    string_of, trim, trim_set, trim_slice, trim_ws, words,
};
use crate::common::ip::format_error;
use crate::rules::model::{
    AddressSpec, IdsRule, OptionView, PortSpec, PortView, RuleAction, RuleOption, RuleView,
    option_views, spec_action_from,
};

verus! {

// ---------------------------------------------------------------------
// The option block
// ---------------------------------------------------------------------

/// The pieces of an option block still to come, read from `s` with `cur` collected so far:
/// `;` outside quotes ends a piece, a quote toggles quoting and is kept, and inside quotes a
/// backslash is dropped and the character after it kept as it is. A last piece is kept only
/// where it is not empty.
pub open spec fn option_pieces(s: Seq<char>, cur: Seq<char>, in_quotes: bool, escape: bool) -> Seq<
    Seq<char>,
>
    decreases s.len(),
{
    if s.len() == 0 {
        if cur.len() > 0 {
            seq![cur]
        } else {
            Seq::empty()
        }
    } else {
        let c = s[0];
        let rest = s.skip(1);
        if escape {
            option_pieces(rest, cur.push(c), in_quotes, false)
        } else if c == '\\' && in_quotes {
            option_pieces(rest, cur, in_quotes, true)
        } else if c == '"' {
            option_pieces(rest, cur.push(c), !in_quotes, false)
        } else if c == ';' && !in_quotes {
            seq![cur] + option_pieces(rest, Seq::empty(), in_quotes, false)
        } else {
            option_pieces(rest, cur.push(c), in_quotes, false)
        }
    }
}

pub open spec fn spec_split_options(s: Seq<char>) -> Seq<Seq<char>> {
    option_pieces(s, Seq::empty(), false, false)
}

/// The option a trimmed, non-empty piece stands for: `key:value` splits at the first colon,
/// the key trimmed and lower-cased, the value trimmed and stripped of one pair of quotes;
/// anything else is a key alone, lower-cased.
pub open spec fn option_of(t: Seq<char>) -> OptionView {
    match find_char(t, ':') {
        Some(k) => OptionView {
            key: lower_seq(trim(t.take(k))),
            value: Some(spec_strip_quotes(trim(t.skip(k + 1)))),
        },
        None => OptionView { key: lower_seq(t), value: None },
    }
}

/// The options of the pieces that are not blank after trimming, in order.
pub open spec fn options_from(pieces: Seq<Seq<char>>) -> Seq<OptionView>
    decreases pieces.len(),
{
    if pieces.len() == 0 {
        Seq::empty()
    } else {
        let t = trim(pieces[0]);
        let rest = options_from(pieces.skip(1));
        if t.len() == 0 {
            rest
        } else {
            seq![option_of(t)] + rest
        }
    }
}

pub open spec fn spec_parse_options(s: Seq<char>) -> Seq<OptionView> {
    options_from(spec_split_options(s))
}

/// Splits an option block at the semicolons that stand outside quotes.
pub fn split_options(s: &[char]) -> (r: Vec<Vec<char>>)
    ensures
        r.deep_view() == spec_split_options(s@),
{
    let mut out: Vec<Vec<char>> = Vec::new();
    let mut cur: Vec<char> = Vec::new();
    let mut in_quotes = false;
    let mut escape = false;
    let mut i: usize = 0;
    assert(s@.skip(0) =~= s@);
    assert(out.deep_view() + option_pieces(s@, cur@, false, false) =~= spec_split_options(s@));
    while i < s.len()
        invariant
            i <= s@.len(),
            out.deep_view() + option_pieces(s@.skip(i as int), cur@, in_quotes, escape)
                == spec_split_options(s@),
        decreases s@.len() - i,
    {
        let c = s[i];
        let ghost t = s@.skip(i as int);
        let ghost before = out.deep_view();
        assert(t[0] == c);
        assert(t.skip(1) =~= s@.skip(i + 1));
        if escape {
            cur.push(c);
            escape = false;
        } else if c == '\\' && in_quotes {
            escape = true;
        } else if c == '"' {
            in_quotes = !in_quotes;
            cur.push(c);
        } else if c == ';' && !in_quotes {
            let done = cur;
            let ghost dv = done@;
            proof {
                lemma_deep_chars(done);
            }
            out.push(done);
            assert(out.deep_view() =~= before.push(dv));
            cur = Vec::new();
            assert(before + option_pieces(t, dv, in_quotes, false) =~= out.deep_view()
                + option_pieces(s@.skip(i + 1), cur@, in_quotes, false));
        } else {
            cur.push(c);
        }
        i = i + 1;
    }
    let ghost before = out.deep_view();
    assert(s@.skip(i as int) =~= Seq::<char>::empty());
    if cur.len() > 0 {
        let ghost cv = cur@;
        proof {
            lemma_deep_chars(cur);
        }
        out.push(cur);
        assert(out.deep_view() =~= before.push(cv));
        assert(before + seq![cv] =~= out.deep_view());
    } else {
        assert(before + Seq::<Seq<char>>::empty() =~= before);
    }
    out
}

/// The option one trimmed, non-empty piece stands for.
fn option_from_piece(t: &[char]) -> (o: RuleOption)
    ensures
        o@ == option_of(t@),
{
    proof {
        lemma_find_char(t@, ':');
    }
    match find_in(t, ':') {
        Some(k) => {
            let n: usize = t.len();
            assert(find_char(t@, ':') == Some(k as int));
            let key = lower_string(trim_ws(&t[0..k]));
            let start: usize = k + 1;
            let value = string_of(strip_quotes(trim_ws(&t[start..n])));
            assert(t@.subrange(0, k as int) =~= t@.take(k as int));
            assert(t@.subrange(k + 1, t@.len() as int) =~= t@.skip(k + 1));
            RuleOption { key, value: Some(value) }
        },
        None => RuleOption { key: lower_string(t), value: None },
    }
}

/// The options of a rule's option block.
pub fn parse_options(s: &[char]) -> (r: Vec<RuleOption>)
    ensures
        option_views(r@) == spec_parse_options(s@),
{
    let pieces = split_options(s);
    let ghost ps = pieces.deep_view();
    let mut out: Vec<RuleOption> = Vec::new();
    let mut i: usize = 0;
    assert(ps.skip(0) =~= ps);
    assert(option_views(out@) + options_from(ps) =~= options_from(ps));
    while i < pieces.len()
        invariant
            i <= pieces@.len(),
            ps == pieces.deep_view(),
            ps == spec_split_options(s@),
            option_views(out@) + options_from(ps.skip(i as int)) == options_from(ps),
        decreases pieces@.len() - i,
    {
        let ghost q = ps.skip(i as int);
        let ghost before = option_views(out@);
        assert(q[0] == pieces@[i as int]@);
        assert(q.skip(1) =~= ps.skip(i + 1));
        let t = trim_ws(pieces[i].as_slice());
        if t.len() > 0 {
            let o = option_from_piece(t);
            out.push(o);
            assert(option_views(out@) =~= before.push(option_of(trim(q[0]))));
            assert(before + options_from(q) =~= option_views(out@) + options_from(
                ps.skip(i + 1),
            ));
        }
        i = i + 1;
    }
    assert(ps.skip(i as int) =~= Seq::<Seq<char>>::empty());
    assert(option_views(out@) + options_from(ps.skip(i as int)) =~= option_views(out@));
    out
}

// ---------------------------------------------------------------------
// Port lists
// ---------------------------------------------------------------------

/// A `Result` whose error is a message, with the message made an `InvalidFormat` error.
pub open spec fn format_err<T>(r: Result<T, Seq<char>>) -> Result<T, ErrorView> {
    match r {
        Ok(v) => Ok(v),
        Err(m) => Err(ErrorView::InvalidFormat(m)),
    }
}

/// A port bound as written: empty stands for `default`, anything else is read as a `u16`.
pub open spec fn port_bound(p: Seq<char>, default: nat) -> Option<nat> {
    if p.len() == 0 {
        Some(default)
    } else {
        parse_unsigned(p, 65535)
    }
}

/// What one trimmed element of a port list gives: nothing where it is empty, else a range
/// (`port`, `start:end` with either bound left out) or the error it is refused with.
pub open spec fn port_part(p: Seq<char>) -> Option<Result<(u16, u16), Seq<char>>> {
    if p.len() == 0 {
        None
    } else {
        match find_char(p, ':') {
            Some(k) => {
                let a = p.take(k);
                let b = p.skip(k + 1);
                match port_bound(a, 0) {
                    None => Some(Err("invalid port "@ + a)),
                    Some(x) => match port_bound(b, 65535) {
                        None => Some(Err("invalid port "@ + b)),
                        Some(y) => if x > y {
                            Some(Err("invalid port range "@ + p))
                        } else {
                            Some(Ok((x as u16, y as u16)))
                        },
                    },
                }
            },
            None => match parse_unsigned(p, 65535) {
                Some(x) => Some(Ok((x as u16, x as u16))),
                None => Some(Err("invalid port "@ + p)),
            },
        }
    }
}

/// The ranges of the elements of a port list, or the error of the first one refused.
pub open spec fn port_parts(ps: Seq<Seq<char>>) -> Result<Seq<(u16, u16)>, Seq<char>>
    decreases ps.len(),
{
    if ps.len() == 0 {
        Ok(Seq::empty())
    } else {
        match port_part(trim(ps[0])) {
            None => port_parts(ps.skip(1)),
            Some(Err(m)) => Err(m),
            Some(Ok(r)) => match port_parts(ps.skip(1)) {
                Ok(rs) => Ok(seq![r] + rs),
                Err(m) => Err(m),
            },
        }
    }
}

pub open spec fn prepend_ranges(pre: Seq<(u16, u16)>, r: Result<Seq<(u16, u16)>, Seq<char>>) -> Result<
    Seq<(u16, u16)>,
    Seq<char>,
> {
    match r {
        Ok(rs) => Ok(pre + rs),
        Err(m) => Err(m),
    }
}

/// A port field: trimmed, an optional leading `!` negates it, `any` (any case) is every
/// port, and otherwise a comma-separated list, brackets trimmed off both ends, that must
/// name at least one range.
pub open spec fn spec_parse_ports(input: Seq<char>) -> Result<PortView, Seq<char>> {
    let v0 = trim(input);
    let negated = v0.len() > 0 && v0[0] == '!';
    let v = if negated {
        v0.skip(1)
    } else {
        v0
    };
    if lower_seq(v) == "any"@ {
        Ok(PortView { any: true, negated, ranges: Seq::empty() })
    } else {
        match port_parts(split_set(trim_set(v, CharSet::Two('[', ']')), CharSet::One(','))) {
            Err(m) => Err(m),
            Ok(rs) => if rs.len() == 0 {
                Err("empty port spec "@ + input)
            } else {
                Ok(PortView { any: false, negated, ranges: rs })
            },
        }
    }
}

pub open spec fn port_result_view(r: AegisResult<PortSpec>) -> Result<PortView, ErrorView> {
    match r {
        Ok(p) => Ok(p@),
        Err(e) => Err(e@),
    }
}

fn port_bound_exec(p: &[char], default: u16) -> (r: Option<u16>)
    ensures
        r matches Some(x) ==> port_bound(p@, default as nat) == Some(x as nat),
        r is None ==> port_bound(p@, default as nat) is None,
{
    if p.len() == 0 {
        Some(default)
    } else {
        parse_u16(p)
    }
}

fn port_part_exec(p: &[char]) -> (r: Option<AegisResult<(u16, u16)>>)
    ensures
        match (r, port_part(p@)) {
            (None, None) => true,
            (Some(Ok(a)), Some(Ok(b))) => a == b,
            (Some(Err(e)), Some(Err(m))) => e@ == ErrorView::InvalidFormat(m),
            _ => false,
        },
{
    let n = p.len();
    if n == 0 {
        return None;
    }
    proof {
        lemma_find_char(p@, ':');
    }
    match find_in(p, ':') {
        Some(k) => {
            assert(find_char(p@, ':') == Some(k as int));
            let a = &p[0..k];
            let start: usize = k + 1;
            let b = &p[start..n];
            assert(a@ =~= p@.take(k as int));
            assert(b@ =~= p@.skip(k + 1));
            match port_bound_exec(a, 0) {
                None => Some(Err(format_error("invalid port ", a))),
                Some(x) => match port_bound_exec(b, 65535) {
                    None => Some(Err(format_error("invalid port ", b))),
                    Some(y) => if x > y {
                        Some(Err(format_error("invalid port range ", p)))
                    } else {
                        Some(Ok((x, y)))
                    },
                },
            }
        },
        None => match parse_u16(p) {
            Some(x) => Some(Ok((x, x))),
            None => Some(Err(format_error("invalid port ", p))),
        },
    }
}

/// A port field of a rule, read from its characters.
pub fn parse_port_chars(input: &[char]) -> (r: AegisResult<PortSpec>)
    ensures
        port_result_view(r) == format_err(spec_parse_ports(input@)),
{
    let v0 = trim_ws(input);
    let n0 = v0.len();
    let negated = n0 > 0 && v0[0] == '!';
    let v = if negated {
        &v0[1..n0]
    } else {
        v0
    };
    assert(negated ==> v@ =~= v0@.skip(1));
    let lv = lower_chars(v);
    if eq_str(lv.as_slice(), "any") {
        return Ok(PortSpec { any: true, negated, ranges: Vec::new() });
    }
    let list = trim_slice(v, CharSet::Two('[', ']'));
    let parts = split_slice(list, CharSet::One(','));
    let ghost ps = parts.deep_view();
    let mut ranges: Vec<(u16, u16)> = Vec::new();
    let mut i: usize = 0;
    assert(ps.skip(0) =~= ps);
    assert(prepend_ranges(ranges@, port_parts(ps)) =~= port_parts(ps)) by {
        match port_parts(ps) {
            Ok(rs) => {
                assert(ranges@ + rs =~= rs);
            },
            Err(m) => {},
        }
    }
    while i < parts.len()
        invariant
            i <= parts@.len(),
            ps == parts.deep_view(),
            ps == split_set(trim_set(v@, CharSet::Two('[', ']')), CharSet::One(',')),
            lower_seq(v@) != "any"@,
            v0@ == trim(input@),
            negated == (v0@.len() > 0 && v0@[0] == '!'),
            v@ == (if negated {
                v0@.skip(1)
            } else {
                v0@
            }),
            prepend_ranges(ranges@, port_parts(ps.skip(i as int))) == port_parts(ps),
        decreases parts@.len() - i,
    {
        let ghost q = ps.skip(i as int);
        let ghost before = ranges@;
        assert(q[0] == parts@[i as int]@);
        assert(q.skip(1) =~= ps.skip(i + 1));
        let p = trim_ws(parts[i].as_slice());
        match port_part_exec(p) {
            None => {},
            Some(Err(e)) => {
                assert(p@ == trim(q[0]));
                return Err(e);
            },
            Some(Ok(range)) => {
                ranges.push(range);
                assert(prepend_ranges(before, port_parts(q)) =~= prepend_ranges(
                    ranges@,
                    port_parts(ps.skip(i + 1)),
                )) by {
                    match port_parts(ps.skip(i + 1)) {
                        Ok(rs) => {
                            assert(before + (seq![range] + rs) =~= ranges@ + rs);
                        },
                        Err(m) => {},
                    }
                }
            },
        }
        i = i + 1;
    }
    assert(ps.skip(i as int) =~= Seq::<Seq<char>>::empty());
    assert(ranges@ + Seq::<(u16, u16)>::empty() =~= ranges@);
    if ranges.len() == 0 {
        return Err(format_error("empty port spec ", input));
    }
    Ok(PortSpec { any: false, negated, ranges })
}

/// A port field of a rule: `any`, a port, a range `start:end`, or a bracketed list of them,
/// each form possibly negated with `!`.
pub fn parse_port_spec(input: &str) -> (r: AegisResult<PortSpec>)
    ensures
        port_result_view(r) == format_err(spec_parse_ports(input@)),
{
    let v = chars_of(input);
    parse_port_chars(v.as_slice())
}

// ---------------------------------------------------------------------
// Rules
// ---------------------------------------------------------------------

/// A rule: a header of seven whitespace-separated fields (action, protocol, source, source
/// ports, direction, destination, destination ports) before the first `(`, and the option
/// block between it and the last `)`.
pub open spec fn spec_parse_rule(s: Seq<char>) -> Result<RuleView, Seq<char>> {
    match find_char(s, '(') {
        None => Err("rule options missing '('"@),
        Some(open) => match rfind_char(s, ')') {
            None => Err("rule options missing ')'"@),
            Some(close) => if close <= open {
                Err("rule option block is malformed"@)
            } else {
                let fields = words(trim(s.take(open)));
                if fields.len() != 7 {
                    Err("rule header expects 7 fields, got "@ + dec(fields.len()))
                } else {
                    match spec_parse_ports(fields[3]) {
                        Err(m) => Err(m),
                        Ok(sp) => match spec_parse_ports(fields[6]) {
                            Err(m) => Err(m),
                            Ok(dp) => Ok(
                                RuleView {
                                    action: spec_action_from(fields[0]),
                                    protocol: lower_seq(fields[1]),
                                    source: fields[2],
                                    source_ports: sp,
                                    direction: fields[4],
                                    destination: fields[5],
                                    destination_ports: dp,
                                    options: spec_parse_options(s.subrange(open + 1, close)),
                                    raw: s,
                                },
                            ),
                        },
                    }
                }
            },
        },
    }
}

pub open spec fn rule_result_view(r: AegisResult<IdsRule>) -> Result<RuleView, ErrorView> {
    match r {
        Ok(rule) => Ok(rule@),
        Err(e) => Err(e@),
    }
}

fn message(text: &str) -> (e: AegisError)
    ensures
        e@ == ErrorView::InvalidFormat(text@),
{
    AegisError::InvalidFormat(String::from_str(text))
}

/// A rule, read from its characters.
pub fn parse_rule_chars(s: &[char]) -> (r: AegisResult<IdsRule>)
    ensures
        rule_result_view(r) == format_err(spec_parse_rule(s@)),
{
    let n = s.len();
    proof {
        lemma_find_char(s@, '(');
        lemma_rfind_char(s@, ')');
    }
    let open = match find_in(s, '(') {
        Some(o) => o,
        None => {
            return Err(message("rule options missing '('"));
        },
    };
    let close = match rfind_in(s, ')') {
        Some(c) => c,
        None => {
            return Err(message("rule options missing ')'"));
        },
    };
    assert(find_char(s@, '(') == Some(open as int));
    assert(rfind_char(s@, ')') == Some(close as int));
    if close <= open {
        return Err(message("rule option block is malformed"));
    }
    let head = &s[0..open];
    assert(head@ =~= s@.take(open as int));
    let header = trim_ws(head);
    let body_start: usize = open + 1;
    let body = &s[body_start..close];
    let fields = split_words(header);
    let ghost fv = fields.deep_view();
    if fields.len() != 7 {
        let mut m = String::from_str("rule header expects 7 fields, got ");
        push_dec(&mut m, fields.len() as u64);
        return Err(AegisError::InvalidFormat(m));
    }
    assert(fields@[3]@ == fv[3] && fields@[6]@ == fv[6]);
    let source_ports = match parse_port_chars(fields[3].as_slice()) {
        Ok(p) => p,
        Err(e) => {
            return Err(e);
        },
    };
    let destination_ports = match parse_port_chars(fields[6].as_slice()) {
        Ok(p) => p,
        Err(e) => {
            return Err(e);
        },
    };
    assert(fields@[0]@ == fv[0] && fields@[1]@ == fv[1] && fields@[2]@ == fv[2]);
    assert(fields@[4]@ == fv[4] && fields@[5]@ == fv[5]);
    let rule = IdsRule {
        action: RuleAction::from_chars(fields[0].as_slice()),
        protocol: lower_string(fields[1].as_slice()),
        source: AddressSpec { raw: string_of(fields[2].as_slice()) },
        source_ports,
        direction: string_of(fields[4].as_slice()),
        destination: AddressSpec { raw: string_of(fields[5].as_slice()) },
        destination_ports,
        options: parse_options(body),
        raw: string_of(s),
    };
    Ok(rule)
}

/// Parses one rule: `action proto src sports dir dst dports (options)`.
pub fn parse_rule(input: &str) -> (r: AegisResult<IdsRule>)
    ensures
        rule_result_view(r) == format_err(spec_parse_rule(input@)),
{
    let v = chars_of(input);
    parse_rule_chars(v.as_slice())
}

/// What one line of a rules file gives: nothing for a blank line or a `#` comment, and
/// otherwise the result of parsing the trimmed line.
pub open spec fn rule_line(l: Seq<char>) -> Option<Result<RuleView, ErrorView>> {
    let t = trim(l);
    if t.len() == 0 || t[0] == '#' {
        None
    } else {
        Some(format_err(spec_parse_rule(t)))
    }
}

pub open spec fn rule_results(v: Seq<AegisResult<IdsRule>>) -> Seq<Result<RuleView, ErrorView>> {
    v.map_values(|r: AegisResult<IdsRule>| rule_result_view(r))
}

/// Parses every rule line of a file: one result per line that is neither blank nor a
/// comment, in order, a line that does not parse giving its error without dropping the
/// others.
pub fn parse_rules_file(input: &str) -> (r: Vec<AegisResult<IdsRule>>)
    ensures
        rule_results(r@) == lines(input@).filter_map(|l: Seq<char>| rule_line(l)),
{
    let ls = lines_of(input);
    let ghost lv = ls.deep_view();
    let ghost f = |l: Seq<char>| rule_line(l);
    let mut out: Vec<AegisResult<IdsRule>> = Vec::new();
    let mut i: usize = 0;
    assert(lv.take(0) =~= Seq::<Seq<char>>::empty());
    assert(rule_results(out@) =~= lv.take(0).filter_map(f));
    while i < ls.len()
        invariant
            i <= ls@.len(),
            lv == ls.deep_view(),
            f == (|l: Seq<char>| rule_line(l)),
            rule_results(out@) == lv.take(i as int).filter_map(f),
        decreases ls@.len() - i,
    {
        let ghost before = rule_results(out@);
        assert(lv[i as int] == ls@[i as int]@);
        proof {
            lv.lemma_filter_map_take_succ(f, i as int);
        }
        let t = trim_ws(ls[i].as_slice());
        if t.len() > 0 && t[0] != '#' {
            let parsed = parse_rule_chars(t);
            out.push(parsed);
            assert(rule_results(out@) =~= before.push(format_err(spec_parse_rule(t@))));
        }
        assert(rule_results(out@) =~= lv.take(i + 1).filter_map(f));
        i = i + 1;
    }
    assert(lv.take(ls@.len() as int) =~= lv);
    out
}

} // verus!
