use vstd::prelude::*;
use vstd::string::*;
use vstd::utf8::encode_utf8;
use crate::common::strings::{percent_decode, percent_decode_lossy, spec_strip_quotes,
    strip_quotes, lossy_text};
use crate::common::text::{
    CharSet, after_last_char, after_last_char_exec, all_hex, all_ascii_hex, before_char,
    before_char_exec, chars_of, find_seq_from, find_str, has_prefix, is_alnum,
    is_ascii_alphanumeric, is_upper, lower, lower_chars, lower_seq, split_set, split_slice,
    starts_with_str, string_of, strip_all_prefix, strip_all_prefix_exec, trim, trim_end_set,
    trim_end_slice, trim_start_set, trim_ws,
};

verus! {

/// A valid DNS label: 1 to 63 letters, digits or hyphens, not starting or ending with `-`.
pub open spec fn label_ok(l: Seq<char>) -> bool {
    &&& 0 < l.len() <= 63
    &&& l[0] != '-'
    &&& l.last() != '-'
    &&& forall|i: int| 0 <= i < l.len() ==> is_alnum(#[trigger] l[i]) || l[i] == '-'
}

/// The text a domain is checked as: quotes, whitespace and trailing dots removed,
/// lower-cased, a leading `*.` dropped.
pub open spec fn domain_candidate(input: Seq<char>) -> Seq<char> {
    let v = lower_seq(trim_end_set(trim(spec_strip_quotes(input)), CharSet::One('.')));
    if has_prefix(v, "*."@) {
        v.skip(2)
    } else {
        v
    }
}

/// A normalized domain: at most 253 characters, at least two valid labels.
pub open spec fn spec_normalize_domain(input: Seq<char>) -> Option<Seq<char>> {
    let v = domain_candidate(input);
    let ls = split_set(v, CharSet::One('.'));
    if v.len() == 0 || v.len() > 253 || ls.len() < 2 || !(forall|i: int|
        0 <= i < ls.len() ==> label_ok(#[trigger] ls[i])) {
        None
    } else {
        Some(v)
    }
}

fn label_ok_exec(l: &[char]) -> (r: bool)
    ensures
        r == label_ok(l@),
{
    let n = l.len();
    if n == 0 || n > 63 || l[0] == '-' || l[n - 1] == '-' {
        return false;
    }
    let mut i: usize = 0;
    while i < n
        invariant
            n == l@.len(),
            i <= n,
            forall|j: int| 0 <= j < i ==> is_alnum(#[trigger] l@[j]) || l@[j] == '-',
        decreases n - i,
    {
        if !(is_ascii_alphanumeric(l[i]) || l[i] == '-') {
            return false;
        }
        i = i + 1;
    }
    true
}

fn domain_candidate_exec(input: &[char]) -> (r: Vec<char>)
    ensures
        r@ == domain_candidate(input@),
{
    let a = strip_quotes(input);
    let b = trim_ws(a);
    let c = trim_end_slice(b, CharSet::One('.'));
    let v = lower_chars(c);
    proof {
        reveal_strlit("*.");
    }
    if starts_with_str(v.as_slice(), "*.") {
        let n = v.len();
        let w = &v[2..n];
        crate::common::text::copy_chars(w)
    } else {
        v
    }
}

/// Domain normalization on characters.
pub fn normalize_domain_chars(input: &[char]) -> (r: Option<String>)
    ensures
        match spec_normalize_domain(input@) {
            Some(d) => r matches Some(x) && x@ == d,
            None => r is None,
        },
{
    let v = domain_candidate_exec(input);
    if v.len() == 0 || v.len() > 253 {
        return None;
    }
    let labels = split_slice(v.as_slice(), CharSet::One('.'));
    if labels.len() < 2 {
        return None;
    }
    let mut i: usize = 0;
    while i < labels.len()
        invariant
            i <= labels@.len(),
            v@ == domain_candidate(input@),
            labels.deep_view() == split_set(v@, CharSet::One('.')),
            forall|j: int| 0 <= j < i ==> label_ok(#[trigger] labels.deep_view()[j]),
        decreases labels@.len() - i,
    {
        assert(labels.deep_view()[i as int] =~= labels@[i as int]@);
        if !label_ok_exec(labels[i].as_slice()) {
            assert(!label_ok(labels.deep_view()[i as int]));
            return None;
        }
        i = i + 1;
    }
    Some(string_of(v.as_slice()))
}

/// Normalizes a domain name: quotes, whitespace and trailing dots removed, lower-cased, a
/// wildcard `*.` dropped; `None` unless it has at least two valid labels and at most 253
/// characters. (Any character outside ASCII is refused by the label check, so counting
/// characters counts bytes.)
pub fn normalize_domain(input: &str) -> (r: Option<String>)
    ensures
        match spec_normalize_domain(input@) {
            Some(d) => r matches Some(x) && x@ == d,
            None => r is None,
        },
{
    let v = chars_of(input);
    normalize_domain_chars(v.as_slice())
}

/// The text a URL is checked as: quotes and whitespace removed, percent escapes decoded,
/// lower-cased.
pub open spec fn url_candidate(input: Seq<char>) -> Seq<char> {
    lower_seq(lossy_text(percent_decode(encode_utf8(trim(spec_strip_quotes(input))))))
}

/// A normalized URL: an `http://` or `https://` URL, trailing slashes removed.
pub open spec fn spec_normalize_url(input: Seq<char>) -> Option<Seq<char>> {
    let l = url_candidate(input);
    if has_prefix(l, "http://"@) || has_prefix(l, "https://"@) {
        Some(trim_end_set(l, CharSet::One('/')))
    } else {
        None
    }
}

pub fn normalize_url(input: &str) -> (r: Option<String>)
    ensures
        match spec_normalize_url(input@) {
            Some(u) => r matches Some(x) && x@ == u,
            None => r is None,
        },
{
    let v = chars_of(input);
    let a = strip_quotes(v.as_slice());
    let b = trim_ws(a);
    let text = string_of(b);
    let decoded = percent_decode_lossy(text.as_str());
    let dv = chars_of(decoded.as_str());
    let lowered = lower_chars(dv.as_slice());
    if !(starts_with_str(lowered.as_slice(), "http://") || starts_with_str(
        lowered.as_slice(),
        "https://",
    )) {
        return None;
    }
    let t = trim_end_slice(lowered.as_slice(), CharSet::One('/'));
    Some(string_of(t))
}

/// The hash text: quotes and whitespace removed, `sha256:`, `sha1:` and `md5:` prefixes
/// removed (in that order, each as often as it repeats), lower-cased.
pub open spec fn hash_candidate(input: Seq<char>) -> Seq<char> {
    lower_seq(
        strip_all_prefix(
            strip_all_prefix(strip_all_prefix(trim(spec_strip_quotes(input)), "sha256:"@), "sha1:"@),
            "md5:"@,
        ),
    )
}

/// The algorithm a hex digest of this length comes from.
pub open spec fn hash_algorithm(len: nat) -> Option<Seq<char>> {
    if len == 32 {
        Some("md5"@)
    } else if len == 40 {
        Some("sha1"@)
    } else if len == 64 {
        Some("sha256"@)
    } else if len == 96 {
        Some("sha384"@)
    } else if len == 128 {
        Some("sha512"@)
    } else {
        None
    }
}

/// A normalized hash: algorithm and lower-case hex digest.
pub open spec fn spec_normalize_hash(input: Seq<char>) -> Option<(Seq<char>, Seq<char>)> {
    let v = hash_candidate(input);
    if !all_hex(v) {
        None
    } else {
        match hash_algorithm(v.len()) {
            Some(a) => Some((a, v)),
            None => None,
        }
    }
}

pub fn normalize_hash(input: &str) -> (r: Option<(String, String)>)
    ensures
        match spec_normalize_hash(input@) {
            Some((a, v)) => r matches Some(x) && x.0@ == a && x.1@ == v,
            None => r is None,
        },
{
    let v = chars_of(input);
    let a = strip_quotes(v.as_slice());
    let b = trim_ws(a);
    let c = strip_all_prefix_exec(b, "sha256:");
    let d = strip_all_prefix_exec(c, "sha1:");
    let e = strip_all_prefix_exec(d, "md5:");
    let value = lower_chars(e);
    if !all_ascii_hex(value.as_slice()) {
        return None;
    }
    let n = value.len();
    let algorithm = if n == 32 {
        "md5"
    } else if n == 40 {
        "sha1"
    } else if n == 64 {
        "sha256"
    } else if n == 96 {
        "sha384"
    } else if n == 128 {
        "sha512"
    } else {
        return None;
    };
    Some((String::from_str(algorithm), string_of(value.as_slice())))
}

/// The host part of a URL: after `://`, before the first `/`, after the last `@`, before
/// the first `:`.
pub open spec fn url_host(url: Seq<char>) -> Option<Seq<char>> {
    match find_seq_from(url, "://"@, 0) {
        None => None,
        Some(i) => {
            let rest = url.skip(i + 3);
            let authority = before_char(rest, '/');
            Some(before_char(after_last_char(authority, '@'), ':'))
        },
    }
}

/// The normalized domain of a URL's host.
pub open spec fn spec_extract_domain(url: Seq<char>) -> Option<Seq<char>> {
    match url_host(url) {
        None => None,
        Some(h) => spec_normalize_domain(h),
    }
}

pub fn extract_domain_from_url(url: &str) -> (r: Option<String>)
    ensures
        match spec_extract_domain(url@) {
            Some(d) => r matches Some(x) && x@ == d,
            None => r is None,
        },
{
    let v = chars_of(url);
    let i = match find_str(v.as_slice(), "://") {
        Some(i) => i,
        None => {
            return None;
        },
    };
    proof {
        reveal_strlit("://");
    }
    let n = v.len();
    let rest = &v[i + 3..n];
    assert(rest@ == v@.skip(i + 3));
    let authority = before_char_exec(rest, '/');
    let host_part = after_last_char_exec(authority, '@');
    let host = before_char_exec(host_part, ':');
    normalize_domain_chars(host)
}

// ---------------------------------------------------------------------
// Idempotence
// ---------------------------------------------------------------------

proof fn lemma_lower_not_upper(c: char)
    ensures
        !is_upper(lower(c)),
        is_upper(c) ==> lower(c) as u32 == c as u32 + 32,
{
    if is_upper(c) {
        let u = (c as u32 + 32) as u32;
        assert(lower(c) == u as char);
        vstd::utf8::char_u32_cast(lower(c), lower(c) as u32);
    }
}

/// The first piece of a split is a prefix of the text, and a lone piece is the whole text.
proof fn lemma_split_first(s: Seq<char>, c: char)
    ensures
        split_set(s, CharSet::One(c)).len() >= 1,
        split_set(s, CharSet::One(c))[0].len() <= s.len(),
        s.take(split_set(s, CharSet::One(c))[0].len() as int) == split_set(s, CharSet::One(c))[0],
        split_set(s, CharSet::One(c)).len() == 1 ==> split_set(s, CharSet::One(c))[0] == s,
    decreases s.len(),
{
    if s.len() == 0 {
        assert(s.take(0) =~= Seq::<char>::empty());
    } else {
        let t = s.drop_last();
        lemma_split_first(t, c);
        let r = split_set(t, CharSet::One(c));
        let ls = split_set(s, CharSet::One(c));
        if s.last() == c {
            assert(ls[0] == r[0]);
            assert(s.take(r[0].len() as int) =~= t.take(r[0].len() as int));
        } else if r.len() > 1 {
            assert(ls[0] == r[0]);
            assert(s.take(r[0].len() as int) =~= t.take(r[0].len() as int));
        } else {
            assert(ls[0] == t.push(s.last()));
            assert(t.push(s.last()) =~= s);
            assert(s.take(s.len() as int) =~= s);
        }
    }
}

/// A non-empty last piece ends the text.
proof fn lemma_split_last(s: Seq<char>, c: char)
    requires
        s.len() > 0,
    ensures
        split_set(s, CharSet::One(c)).last().len() > 0 ==> s.last() != c
            && split_set(s, CharSet::One(c)).last().last() == s.last(),
{
    crate::common::text::lemma_split_set_len(s.drop_last(), CharSet::One(c));
}

/// A normalized domain normalizes to itself; it is in lower case, at most 253 characters
/// long, and made of at least two valid labels.
pub proof fn law_normalize_domain_idempotent(input: Seq<char>, d: Seq<char>)
    requires
        spec_normalize_domain(input) == Some(d),
    ensures
        spec_normalize_domain(d) == Some(d),
        lower_seq(d) == d,
        0 < d.len() <= 253,
        split_set(d, CharSet::One('.')).len() >= 2,
        forall|i: int|
            0 <= i < split_set(d, CharSet::One('.')).len() ==> label_ok(
                #[trigger] split_set(d, CharSet::One('.'))[i],
            ),
{
    let ls = split_set(d, CharSet::One('.'));
    let x = lower_seq(trim_end_set(trim(spec_strip_quotes(input)), CharSet::One('.')));
    reveal_strlit("*.");
    assert forall|i: int| 0 <= i < x.len() implies !is_upper(#[trigger] x[i]) by {
        lemma_lower_not_upper(trim_end_set(trim(spec_strip_quotes(input)), CharSet::One('.'))[i]);
    }
    assert forall|i: int| 0 <= i < d.len() implies !is_upper(#[trigger] d[i]) by {
        assert(domain_candidate(input) == d);
        if has_prefix(x, "*."@) {
            assert(d == x.skip(2));
            assert(d[i] == x[i + 2]);
        } else {
            assert(d == x);
        }
    }
    assert(lower_seq(d) =~= d);
    lemma_split_first(d, '.');
    lemma_split_last(d, '.');
    assert(label_ok(ls[0]));
    assert(label_ok(ls[ls.len() - 1]));
    assert(ls.last() == ls[ls.len() - 1]);
    let first = d[0];
    assert(first == ls[0][0]);
    let last = d.last();
    assert(is_alnum(first));
    assert(is_alnum(last));
    assert(spec_strip_quotes(d) == d);
    assert(trim_start_set(d, CharSet::Whitespace) == d);
    assert(trim_end_set(d, CharSet::Whitespace) == d);
    assert(trim(d) == d);
    assert(trim_end_set(d, CharSet::One('.')) == d);
    assert(!has_prefix(d, "*."@));
    assert(domain_candidate(d) == d);
}

} // verus!
