use vstd::prelude::*;

verus! {

// ---------------------------------------------------------------------
// Character classes
// ---------------------------------------------------------------------

/// Unicode `White_Space`, the set that `char::is_whitespace` tests.
pub open spec fn is_ws(c: char) -> bool {
    let u = c as u32;
    u == 0x20 || (0x09 <= u && u <= 0x0d) || u == 0x85 || u == 0xa0 || u == 0x1680 || (0x2000
        <= u && u <= 0x200a) || u == 0x2028 || u == 0x2029 || u == 0x202f || u == 0x205f || u
        == 0x3000
}

/// ASCII whitespace as `char::is_ascii_whitespace` defines it (no vertical tab).
pub open spec fn is_ascii_ws(c: char) -> bool {
    c == ' ' || c == '\t' || c == '\n' || c == '\x0C' || c == '\r'
}

pub open spec fn is_digit(c: char) -> bool {
    '0' <= c && c <= '9'
}

pub open spec fn is_hex(c: char) -> bool {
    is_digit(c) || ('a' <= c && c <= 'f') || ('A' <= c && c <= 'F')
}

pub open spec fn is_upper(c: char) -> bool {
    'A' <= c && c <= 'Z'
}

pub open spec fn is_lower(c: char) -> bool {
    'a' <= c && c <= 'z'
}

pub open spec fn is_alnum(c: char) -> bool {
    is_digit(c) || is_upper(c) || is_lower(c)
}

/// `char::to_ascii_lowercase`.
pub open spec fn lower(c: char) -> char {
    if is_upper(c) {
        ((c as u32) + 32) as char
    } else {
        c
    }
}

/// `char::to_ascii_uppercase`.
pub open spec fn upper(c: char) -> char {
    if is_lower(c) {
        ((c as u32) - 32) as char
    } else {
        c
    }
}

pub open spec fn lower_seq(s: Seq<char>) -> Seq<char> {
    s.map_values(|c: char| lower(c))
}

pub open spec fn upper_seq(s: Seq<char>) -> Seq<char> {
    s.map_values(|c: char| upper(c))
}

pub open spec fn all_digits(s: Seq<char>) -> bool {
    forall|i: int| 0 <= i < s.len() ==> is_digit(#[trigger] s[i])
}

pub open spec fn all_hex(s: Seq<char>) -> bool {
    forall|i: int| 0 <= i < s.len() ==> is_hex(#[trigger] s[i])
}

/// A set of characters that trimming and splitting work with.
#[derive(Clone, Copy)]
pub enum CharSet {
    One(char),
    Two(char, char),
    Whitespace,
    AsciiWhitespace,
    /// Everything but ASCII letters, digits and `-`.
    NonWord,
}

pub open spec fn in_set(c: char, set: CharSet) -> bool {
    match set {
        CharSet::One(a) => c == a,
        CharSet::Two(a, b) => c == a || c == b,
        CharSet::Whitespace => is_ws(c),
        CharSet::AsciiWhitespace => is_ascii_ws(c),
        CharSet::NonWord => !(is_alnum(c) || c == '-'),
    }
}

pub fn is_whitespace(c: char) -> (b: bool)
    ensures
        b == is_ws(c),
{
    let u = c as u32;
    u == 0x20 || (0x09 <= u && u <= 0x0d) || u == 0x85 || u == 0xa0 || u == 0x1680 || (0x2000
        <= u && u <= 0x200a) || u == 0x2028 || u == 0x2029 || u == 0x202f || u == 0x205f || u
        == 0x3000
}

pub fn is_ascii_whitespace(c: char) -> (b: bool)
    ensures
        b == is_ascii_ws(c),
{
    c == ' ' || c == '\t' || c == '\n' || c == '\x0C' || c == '\r'
}

pub fn is_ascii_digit(c: char) -> (b: bool)
    ensures
        b == is_digit(c),
{
    '0' <= c && c <= '9'
}

pub fn is_ascii_hexdigit(c: char) -> (b: bool)
    ensures
        b == is_hex(c),
{
    ('0' <= c && c <= '9') || ('a' <= c && c <= 'f') || ('A' <= c && c <= 'F')
}

pub fn is_ascii_alphanumeric(c: char) -> (b: bool)
    ensures
        b == is_alnum(c),
{
    ('0' <= c && c <= '9') || ('A' <= c && c <= 'Z') || ('a' <= c && c <= 'z')
}

pub fn to_lower(c: char) -> (r: char)
    ensures
        r == lower(c),
{
    if 'A' <= c && c <= 'Z' {
        let u = (c as u32) + 32;
        assert(u < 0xD800);
        char_from_ascii(u)
    } else {
        c
    }
}

pub fn to_upper(c: char) -> (r: char)
    ensures
        r == upper(c),
{
    if 'a' <= c && c <= 'z' {
        let u = (c as u32) - 32;
        char_from_ascii(u)
    } else {
        c
    }
}

/// The character whose scalar value is `u`, an ASCII code.
pub fn char_from_ascii(u: u32) -> (c: char)
    requires
        u < 0x80,
    ensures
        c == u as char,
        c as u32 == u,
{
    let b = u as u8;
    b as char
}

pub fn set_has(c: char, set: CharSet) -> (b: bool)
    ensures
        b == in_set(c, set),
{
    match set {
        CharSet::One(a) => c == a,
        CharSet::Two(a, b) => c == a || c == b,
        CharSet::Whitespace => is_whitespace(c),
        CharSet::AsciiWhitespace => is_ascii_whitespace(c),
        CharSet::NonWord => !(is_ascii_alphanumeric(c) || c == '-'),
    }
}

// ---------------------------------------------------------------------
// Conversions between strings and characters
// ---------------------------------------------------------------------

/// The characters of a string slice, in order.
pub fn chars_of(s: &str) -> (v: Vec<char>)
    ensures
        v@ == s@,
{
    let mut v: Vec<char> = Vec::new();
    for c in it: s.chars()
        invariant
            v@ == it.seq().take(it.index() as int),
    {
        v.push(c);
    }
    v
}

/// `String::push`: the contract claims that the text afterwards is the text before with `c`
/// at its end.
#[verifier::external_body]
pub(crate) fn push_char(s: &mut String, c: char)
    ensures
        final(s)@ == old(s)@.push(c),
{
    s.push(c);
}

/// Appends characters to a `String`.
pub fn push_chars(s: &mut String, v: &[char])
    ensures
        final(s)@ == old(s)@ + v@,
{
    let ghost s0 = s@;
    let mut i: usize = 0;
    while i < v.len()
        invariant
            i <= v@.len(),
            s@ == s0 + v@.take(i as int),
        decreases v@.len() - i,
    {
        push_char(s, v[i]);
        assert(v@.take(i + 1) == v@.take(i as int).push(v@[i as int]));
        i = i + 1;
    }
    assert(v@.take(v@.len() as int) == v@);
}

/// A `String` holding the given characters.
pub fn string_of(v: &[char]) -> (s: String)
    ensures
        s@ == v@,
{
    let mut s = String::new();
    push_chars(&mut s, v);
    s
}

/// Equality of two string slices.
pub fn str_eq(a: &str, b: &str) -> (r: bool)
    ensures
        r == (a@ == b@),
{
    let x = chars_of(a);
    let y = chars_of(b);
    chars_eq(x.as_slice(), y.as_slice())
}

pub fn chars_eq(a: &[char], b: &[char]) -> (r: bool)
    ensures
        r == (a@ == b@),
{
    if a.len() != b.len() {
        return false;
    }
    let mut i: usize = 0;
    while i < a.len()
        invariant
            a@.len() == b@.len(),
            i <= a@.len(),
            forall|j: int| 0 <= j < i ==> a@[j] == b@[j],
        decreases a@.len() - i,
    {
        if a[i] != b[i] {
            return false;
        }
        i = i + 1;
    }
    assert(a@ =~= b@);
    true
}

pub fn lower_chars(s: &[char]) -> (r: Vec<char>)
    ensures
        r@ == lower_seq(s@),
{
    let mut r: Vec<char> = Vec::new();
    let mut i: usize = 0;
    while i < s.len()
        invariant
            i <= s@.len(),
            r@ == lower_seq(s@.take(i as int)),
        decreases s@.len() - i,
    {
        r.push(to_lower(s[i]));
        assert(lower_seq(s@.take(i + 1)) =~= lower_seq(s@.take(i as int)).push(lower(s@[i as int])));
        i = i + 1;
    }
    assert(s@.take(s@.len() as int) == s@);
    r
}

pub fn upper_chars(s: &[char]) -> (r: Vec<char>)
    ensures
        r@ == upper_seq(s@),
{
    let mut r: Vec<char> = Vec::new();
    let mut i: usize = 0;
    while i < s.len()
        invariant
            i <= s@.len(),
            r@ == upper_seq(s@.take(i as int)),
        decreases s@.len() - i,
    {
        r.push(to_upper(s[i]));
        assert(upper_seq(s@.take(i + 1)) =~= upper_seq(s@.take(i as int)).push(upper(s@[i as int])));
        i = i + 1;
    }
    assert(s@.take(s@.len() as int) == s@);
    r
}

/// `str::to_ascii_lowercase`.
pub fn lower_string(s: &[char]) -> (r: String)
    ensures
        r@ == lower_seq(s@),
{
    let v = lower_chars(s);
    string_of(v.as_slice())
}

/// `eq_ignore_ascii_case`.
pub fn eq_ignore_case(a: &[char], b: &[char]) -> (r: bool)
    ensures
        r == (lower_seq(a@) == lower_seq(b@)),
{
    let x = lower_chars(a);
    let y = lower_chars(b);
    chars_eq(x.as_slice(), y.as_slice())
}

pub fn all_ascii_digits(s: &[char]) -> (r: bool)
    ensures
        r == all_digits(s@),
{
    let mut i: usize = 0;
    while i < s.len()
        invariant
            i <= s@.len(),
            forall|j: int| 0 <= j < i ==> is_digit(#[trigger] s@[j]),
        decreases s@.len() - i,
    {
        if !is_ascii_digit(s[i]) {
            return false;
        }
        i = i + 1;
    }
    true
}

pub fn all_ascii_hex(s: &[char]) -> (r: bool)
    ensures
        r == all_hex(s@),
{
    let mut i: usize = 0;
    while i < s.len()
        invariant
            i <= s@.len(),
            forall|j: int| 0 <= j < i ==> is_hex(#[trigger] s@[j]),
        decreases s@.len() - i,
    {
        if !is_ascii_hexdigit(s[i]) {
            return false;
        }
        i = i + 1;
    }
    true
}

// ---------------------------------------------------------------------
// Trimming
// ---------------------------------------------------------------------

pub open spec fn trim_start_set(s: Seq<char>, set: CharSet) -> Seq<char>
    decreases s.len(),
{
    if s.len() > 0 && in_set(s[0], set) {
        trim_start_set(s.drop_first(), set)
    } else {
        s
    }
}

pub open spec fn trim_end_set(s: Seq<char>, set: CharSet) -> Seq<char>
    decreases s.len(),
{
    if s.len() > 0 && in_set(s.last(), set) {
        trim_end_set(s.drop_last(), set)
    } else {
        s
    }
}

/// `trim_matches` with the set: both ends.
pub open spec fn trim_set(s: Seq<char>, set: CharSet) -> Seq<char> {
    trim_end_set(trim_start_set(s, set), set)
}

/// `str::trim`.
pub open spec fn trim(s: Seq<char>) -> Seq<char> {
    trim_set(s, CharSet::Whitespace)
}

pub fn trim_start_slice<'a>(s: &'a [char], set: CharSet) -> (r: &'a [char])
    ensures
        r@ == trim_start_set(s@, set),
{
    let mut i: usize = 0;
    assert(s@.subrange(0, s@.len() as int) =~= s@);
    while i < s.len() && set_has(s[i], set)
        invariant
            i <= s@.len(),
            trim_start_set(s@, set) == trim_start_set(s@.subrange(i as int, s@.len() as int), set),
        decreases s@.len() - i,
    {
        assert(s@.subrange(i as int, s@.len() as int).drop_first() =~= s@.subrange(
            i + 1,
            s@.len() as int,
        ));
        i = i + 1;
    }
    assert(s@.subrange(0, s@.len() as int) == s@);
    &s[i..s.len()]
}

pub fn trim_end_slice<'a>(s: &'a [char], set: CharSet) -> (r: &'a [char])
    ensures
        r@ == trim_end_set(s@, set),
{
    let mut j: usize = s.len();
    assert(s@.take(s@.len() as int) =~= s@);
    while j > 0 && set_has(s[j - 1], set)
        invariant
            j <= s@.len(),
            trim_end_set(s@, set) == trim_end_set(s@.take(j as int), set),
        decreases j,
    {
        assert(s@.take(j as int).drop_last() =~= s@.take(j - 1));
        j = j - 1;
    }
    assert(s@.take(s@.len() as int) == s@);
    &s[0..j]
}

pub fn trim_slice<'a>(s: &'a [char], set: CharSet) -> (r: &'a [char])
    ensures
        r@ == trim_set(s@, set),
{
    let a = trim_start_slice(s, set);
    trim_end_slice(a, set)
}

/// `str::trim` on characters.
pub fn trim_ws<'a>(s: &'a [char]) -> (r: &'a [char])
    ensures
        r@ == trim(s@),
{
    trim_slice(s, CharSet::Whitespace)
}

// ---------------------------------------------------------------------
// Prefixes, suffixes, searching
// ---------------------------------------------------------------------

pub open spec fn has_prefix(s: Seq<char>, p: Seq<char>) -> bool {
    p.len() <= s.len() && s.take(p.len() as int) == p
}

pub open spec fn has_suffix(s: Seq<char>, p: Seq<char>) -> bool {
    p.len() <= s.len() && s.skip(s.len() - p.len()) == p
}

pub open spec fn occurs_at(s: Seq<char>, p: Seq<char>, i: int) -> bool {
    0 <= i && i + p.len() <= s.len() && s.subrange(i, i + p.len()) == p
}

/// `str::contains` with a string pattern.
pub open spec fn contains_seq(s: Seq<char>, p: Seq<char>) -> bool {
    exists|i: int| occurs_at(s, p, i)
}

/// The first index at which `c` occurs.
pub open spec fn find_char(s: Seq<char>, c: char) -> Option<int>
    decreases s.len(),
{
    if s.len() == 0 {
        None
    } else if s[0] == c {
        Some(0)
    } else {
        match find_char(s.drop_first(), c) {
            Some(i) => Some(i + 1),
            None => None,
        }
    }
}

/// The last index at which `c` occurs.
pub open spec fn rfind_char(s: Seq<char>, c: char) -> Option<int>
    decreases s.len(),
{
    if s.len() == 0 {
        None
    } else if s.last() == c {
        Some(s.len() - 1)
    } else {
        rfind_char(s.drop_last(), c)
    }
}

pub proof fn lemma_find_char(s: Seq<char>, c: char)
    ensures
        match find_char(s, c) {
            Some(i) => 0 <= i < s.len() && s[i] == c && forall|j: int|
                0 <= j < i ==> s[j] != c,
            None => forall|j: int| 0 <= j < s.len() ==> s[j] != c,
        },
    decreases s.len(),
{
    if s.len() > 0 && s[0] != c {
        lemma_find_char(s.drop_first(), c);
        match find_char(s.drop_first(), c) {
            Some(i) => {
                assert forall|j: int| 0 <= j < i + 1 implies s[j] != c by {
                    if j > 0 {
                        assert(s[j] == s.drop_first()[j - 1]);
                    }
                }
            },
            None => {
                assert forall|j: int| 0 <= j < s.len() implies s[j] != c by {
                    if j > 0 {
                        assert(s[j] == s.drop_first()[j - 1]);
                    }
                }
            },
        }
    }
}

pub proof fn lemma_rfind_char(s: Seq<char>, c: char)
    ensures
        match rfind_char(s, c) {
            Some(i) => 0 <= i < s.len() && s[i] == c && forall|j: int|
                i < j < s.len() ==> s[j] != c,
            None => forall|j: int| 0 <= j < s.len() ==> s[j] != c,
        },
    decreases s.len(),
{
    if s.len() > 0 && s.last() != c {
        lemma_rfind_char(s.drop_last(), c);
        assert forall|j: int| 0 <= j < s.len() - 1 implies s[j] == s.drop_last()[j] by {}
    }
}

pub fn find_in(s: &[char], c: char) -> (r: Option<usize>)
    ensures
        r matches Some(i) ==> find_char(s@, c) == Some(i as int),
        r is None ==> find_char(s@, c) is None,
{
    proof {
        lemma_find_char(s@, c);
    }
    let mut i: usize = 0;
    while i < s.len()
        invariant
            i <= s@.len(),
            forall|j: int| 0 <= j < i ==> s@[j] != c,
            match find_char(s@, c) {
                Some(k) => 0 <= k < s.len() && s@[k] == c && forall|j: int|
                    0 <= j < k ==> s@[j] != c,
                None => forall|j: int| 0 <= j < s@.len() ==> s@[j] != c,
            },
        decreases s@.len() - i,
    {
        if s[i] == c {
            return Some(i);
        }
        i = i + 1;
    }
    None
}

pub fn rfind_in(s: &[char], c: char) -> (r: Option<usize>)
    ensures
        r matches Some(i) ==> rfind_char(s@, c) == Some(i as int),
        r is None ==> rfind_char(s@, c) is None,
{
    proof {
        lemma_rfind_char(s@, c);
    }
    let mut j: usize = s.len();
    while j > 0
        invariant
            j <= s@.len(),
            forall|k: int| j <= k < s@.len() ==> s@[k] != c,
            match rfind_char(s@, c) {
                Some(k) => 0 <= k < s.len() && s@[k] == c && forall|m: int|
                    k < m < s@.len() ==> s@[m] != c,
                None => forall|m: int| 0 <= m < s@.len() ==> s@[m] != c,
            },
        decreases j,
    {
        if s[j - 1] == c {
            return Some(j - 1);
        }
        j = j - 1;
    }
    None
}

pub fn has_char(s: &[char], c: char) -> (r: bool)
    ensures
        r == s@.contains(c),
{
    let mut i: usize = 0;
    while i < s.len()
        invariant
            i <= s@.len(),
            forall|j: int| 0 <= j < i ==> s@[j] != c,
        decreases s@.len() - i,
    {
        if s[i] == c {
            assert(s@[i as int] == c);
            return true;
        }
        i = i + 1;
    }
    false
}

pub fn occurs_at_exec(s: &[char], p: &[char], i: usize) -> (r: bool)
    ensures
        r == occurs_at(s@, p@, i as int),
{
    if i > s.len() || p.len() > s.len() - i {
        return false;
    }
    let n = s.len();
    let mut k: usize = 0;
    while k < p.len()
        invariant
            n == s@.len(),
            i + p@.len() <= s@.len(),
            k <= p@.len(),
            forall|j: int| 0 <= j < k ==> s@[i + j] == p@[j],
        decreases p@.len() - k,
    {
        assert(i + k < s@.len());
        if s[i + k] != p[k] {
            assert(s@.subrange(i as int, i + p@.len())[k as int] != p@[k as int]);
            return false;
        }
        k = k + 1;
    }
    assert(s@.subrange(i as int, i + p@.len()) =~= p@);
    true
}

pub fn starts_with(s: &[char], p: &[char]) -> (r: bool)
    ensures
        r == has_prefix(s@, p@),
{
    let r = occurs_at_exec(s, p, 0);
    assert(s@.subrange(0, p@.len() as int) == s@.take(p@.len() as int));
    r
}

pub fn ends_with(s: &[char], p: &[char]) -> (r: bool)
    ensures
        r == has_suffix(s@, p@),
{
    if p.len() > s.len() {
        return false;
    }
    let r = occurs_at_exec(s, p, s.len() - p.len());
    assert(s@.subrange(s@.len() - p@.len(), s@.len() as int) == s@.skip(s@.len() - p@.len()));
    r
}

/// `str::contains` with a string pattern.
pub fn contains(s: &[char], p: &[char]) -> (r: bool)
    ensures
        r == contains_seq(s@, p@),
{
    if p.len() > s.len() {
        return false;
    }
    let last = s.len() - p.len();
    let mut i: usize = 0;
    while i < last
        invariant
            p@.len() <= s@.len(),
            last == s@.len() - p@.len(),
            i <= last,
            forall|j: int| 0 <= j < i ==> !occurs_at(s@, p@, j),
        decreases last - i,
    {
        if occurs_at_exec(s, p, i) {
            return true;
        }
        i = i + 1;
    }
    if occurs_at_exec(s, p, last) {
        return true;
    }
    proof {
        true_if_none(s@, p@);
    }
    false
}

proof fn true_if_none(s: Seq<char>, p: Seq<char>)
    requires
        p.len() <= s.len(),
        forall|j: int| 0 <= j <= s.len() - p.len() ==> !occurs_at(s, p, j),
    ensures
        !contains_seq(s, p),
{
    assert forall|j: int| !occurs_at(s, p, j) by {
        if 0 <= j && j + p.len() <= s.len() {
        }
    }
}

/// `str::contains` with a string literal pattern.
pub fn contains_str(s: &[char], p: &str) -> (r: bool)
    ensures
        r == contains_seq(s@, p@),
{
    let pv = chars_of(p);
    contains(s, pv.as_slice())
}

pub fn starts_with_str(s: &[char], p: &str) -> (r: bool)
    ensures
        r == has_prefix(s@, p@),
{
    let pv = chars_of(p);
    starts_with(s, pv.as_slice())
}

pub fn eq_str(s: &[char], p: &str) -> (r: bool)
    ensures
        r == (s@ == p@),
{
    let pv = chars_of(p);
    chars_eq(s, pv.as_slice())
}

pub proof fn lemma_deep_chars(v: Vec<char>)
    ensures
        v.deep_view() == v@,
{
    assert(v.deep_view() =~= v@);
}

// ---------------------------------------------------------------------
// Splitting
// ---------------------------------------------------------------------

/// `split` on the characters of a set: always at least one piece.
pub open spec fn split_set(s: Seq<char>, set: CharSet) -> Seq<Seq<char>>
    decreases s.len(),
{
    if s.len() == 0 {
        seq![Seq::<char>::empty()]
    } else {
        let r = split_set(s.drop_last(), set);
        if in_set(s.last(), set) {
            r.push(Seq::<char>::empty())
        } else {
            r.update(r.len() - 1, r.last().push(s.last()))
        }
    }
}

pub proof fn lemma_split_set_len(s: Seq<char>, set: CharSet)
    ensures
        split_set(s, set).len() >= 1,
    decreases s.len(),
{
    if s.len() > 0 {
        lemma_split_set_len(s.drop_last(), set);
    }
}

pub fn split_slice(s: &[char], set: CharSet) -> (r: Vec<Vec<char>>)
    ensures
        r.deep_view() == split_set(s@, set),
        r@.len() >= 1,
{
    let mut out: Vec<Vec<char>> = Vec::new();
    let mut cur: Vec<char> = Vec::new();
    let mut i: usize = 0;
    assert(s@.take(0) =~= Seq::<char>::empty());
    assert(out.deep_view().push(cur@) =~= split_set(s@.take(0), set));
    while i < s.len()
        invariant
            i <= s@.len(),
            out.deep_view().push(cur@) == split_set(s@.take(i as int), set),
        decreases s@.len() - i,
    {
        let c = s[i];
        let ghost prev = s@.take(i as int);
        assert(s@.take(i + 1).drop_last() =~= prev);
        assert(s@.take(i + 1).last() == c);
        proof {
            lemma_split_set_len(prev, set);
        }
        let ghost old_out = out.deep_view();
        if set_has(c, set) {
            let done = cur;
            let ghost dv = done@;
            proof {
                lemma_deep_chars(done);
            }
            out.push(done);
            assert(out.deep_view() =~= old_out.push(dv));
            cur = Vec::new();
            assert(out.deep_view().push(cur@) =~= split_set(prev, set).push(Seq::<char>::empty()));
        } else {
            let ghost old_cur = cur@;
            cur.push(c);
            assert(out.deep_view().push(cur@) =~= split_set(prev, set).update(
                split_set(prev, set).len() - 1,
                old_cur.push(c),
            ));
        }
        i = i + 1;
    }
    assert(s@.take(s@.len() as int) =~= s@);
    let ghost old_out = out.deep_view();
    let ghost cv = cur@;
    proof {
        lemma_deep_chars(cur);
    }
    out.push(cur);
    assert(out.deep_view() =~= old_out.push(cv));
    assert(out.deep_view() =~= split_set(s@, set));
    out
}

/// `split_whitespace`: the non-empty pieces between whitespace.
pub open spec fn words(s: Seq<char>) -> Seq<Seq<char>> {
    split_set(s, CharSet::Whitespace).filter(|w: Seq<char>| w.len() > 0)
}

pub fn nonempty_pieces(v: &Vec<Vec<char>>) -> (r: Vec<Vec<char>>)
    ensures
        r.deep_view() == v.deep_view().filter(|w: Seq<char>| w.len() > 0),
{
    let ghost orig = v.deep_view();
    let mut out: Vec<Vec<char>> = Vec::new();
    let mut i: usize = 0;
    while i < v.len()
        invariant
            i <= v@.len(),
            orig == v.deep_view(),
            out.deep_view() == orig.take(i as int).filter(|w: Seq<char>| w.len() > 0),
        decreases v@.len() - i,
    {
        let p = &v[i];
        assert(orig.take(i + 1).drop_last() =~= orig.take(i as int));
        assert(orig.take(i + 1).last() == p@);
        reveal(Seq::filter);
        if p.len() > 0 {
            let q = copy_chars(p.as_slice());
            let ghost old_out = out.deep_view();
            let ghost qv = q@;
            proof {
                lemma_deep_chars(q);
            }
            out.push(q);
            assert(out.deep_view() =~= old_out.push(qv));
            assert(out.deep_view() =~= orig.take(i + 1).filter(|w: Seq<char>| w.len() > 0));
        } else {
            assert(out.deep_view() =~= orig.take(i + 1).filter(|w: Seq<char>| w.len() > 0));
        }
        i = i + 1;
    }
    assert(orig.take(orig.len() as int) =~= orig);
    out
}

/// A fresh vector holding the same characters.
pub fn copy_chars(s: &[char]) -> (r: Vec<char>)
    ensures
        r@ == s@,
{
    let mut r: Vec<char> = Vec::new();
    let mut i: usize = 0;
    while i < s.len()
        invariant
            i <= s@.len(),
            r@ == s@.take(i as int),
        decreases s@.len() - i,
    {
        r.push(s[i]);
        assert(s@.take(i + 1) =~= s@.take(i as int).push(s@[i as int]));
        i = i + 1;
    }
    assert(s@.take(s@.len() as int) =~= s@);
    r
}

/// `split_whitespace` on characters.
pub fn split_words(s: &[char]) -> (r: Vec<Vec<char>>)
    ensures
        r.deep_view() == words(s@),
{
    let parts = split_slice(s, CharSet::Whitespace);
    nonempty_pieces(&parts)
}

// ---------------------------------------------------------------------
// Lines
// ---------------------------------------------------------------------

pub open spec fn strip_cr(s: Seq<char>) -> Seq<char> {
    if s.len() > 0 && s.last() == '\r' {
        s.drop_last()
    } else {
        s
    }
}

/// `str::lines`: split at `\n`, drop one `\r` before each `\n`, and drop an empty
/// final piece.
pub open spec fn lines(s: Seq<char>) -> Seq<Seq<char>> {
    let p = split_set(s, CharSet::One('\n'));
    let body = Seq::new((p.len() - 1) as nat, |i: int| strip_cr(p[i]));
    if p.last().len() == 0 {
        body
    } else {
        body.push(p.last())
    }
}

pub fn lines_of(s: &str) -> (r: Vec<Vec<char>>)
    ensures
        r.deep_view() == lines(s@),
{
    let v = chars_of(s);
    let parts = split_slice(v.as_slice(), CharSet::One('\n'));
    let ghost p = parts.deep_view();
    let n = parts.len();
    let mut out: Vec<Vec<char>> = Vec::new();
    let mut i: usize = 0;
    while i + 1 < n
        invariant
            n == parts@.len(),
            n >= 1,
            p == parts.deep_view(),
            i + 1 <= n,
            out.deep_view() == Seq::new(i as nat, |k: int| strip_cr(p[k])),
        decreases n - i,
    {
        let piece = &parts[i];
        let m = piece.len();
        let ghost pv = piece@;
        assert(pv == p[i as int]);
        let mut line: Vec<char> = Vec::new();
        let keep = if m > 0 && piece[m - 1] == '\r' {
            m - 1
        } else {
            m
        };
        let mut k: usize = 0;
        while k < keep
            invariant
                keep <= m,
                m == pv.len(),
                pv == piece@,
                k <= keep,
                line@ == pv.take(k as int),
            decreases keep - k,
        {
            line.push(piece[k]);
            assert(pv.take(k + 1) =~= pv.take(k as int).push(pv[k as int]));
            k = k + 1;
        }
        assert(line@ =~= strip_cr(pv));
        let ghost old_out = out.deep_view();
        let ghost lv = line@;
        proof {
            lemma_deep_chars(line);
        }
        out.push(line);
        assert(out.deep_view() =~= old_out.push(lv));
        assert(out.deep_view() =~= Seq::new((i + 1) as nat, |k: int| strip_cr(p[k])));
        i = i + 1;
    }
    let last = &parts[n - 1];
    assert(last@ == p.last());
    if last.len() > 0 {
        let l = copy_chars(last.as_slice());
        let ghost old_out = out.deep_view();
        let ghost lv = l@;
        proof {
            lemma_deep_chars(l);
        }
        out.push(l);
        assert(out.deep_view() =~= old_out.push(lv));
    }
    assert(out.deep_view() =~= lines(s@));
    out
}

// ---------------------------------------------------------------------
// Decimal numbers
// ---------------------------------------------------------------------

pub open spec fn digit_value(c: char) -> nat {
    ((c as u32) - ('0' as u32)) as nat
}

/// The value of a run of decimal digits.
pub open spec fn digits_value(s: Seq<char>) -> nat
    decreases s.len(),
{
    if s.len() == 0 {
        0
    } else {
        digits_value(s.drop_last()) * 10 + digit_value(s.last())
    }
}

/// What `str::parse` gives for an unsigned integer type whose largest value is `max`:
/// an optional `+`, then at least one decimal digit, and a value that fits.
pub open spec fn parse_unsigned(s: Seq<char>, max: nat) -> Option<nat> {
    let body = if s.len() > 0 && s[0] == '+' {
        s.drop_first()
    } else {
        s
    };
    if body.len() > 0 && all_digits(body) && digits_value(body) <= max {
        Some(digits_value(body))
    } else {
        None
    }
}

pub proof fn lemma_digits_value_mono(s: Seq<char>, i: int)
    requires
        0 <= i <= s.len(),
        all_digits(s),
    ensures
        digits_value(s.take(i)) <= digits_value(s),
    decreases s.len() - i,
{
    if i < s.len() {
        lemma_digits_value_mono(s, i + 1);
        assert(s.take(i + 1).drop_last() =~= s.take(i));
    } else {
        assert(s.take(i) =~= s);
    }
}

/// The value of a run of decimal digits, or `None` once it passes `max`.
pub fn digits_upto(s: &[char], max: u64) -> (r: Option<u64>)
    requires
        all_digits(s@),
    ensures
        r matches Some(v) ==> v == digits_value(s@) && v <= max,
        r is None ==> digits_value(s@) > max,
{
    let mut acc: u64 = 0;
    let mut i: usize = 0;
    while i < s.len()
        invariant
            i <= s@.len(),
            all_digits(s@),
            acc == digits_value(s@.take(i as int)),
            acc <= max,
        decreases s@.len() - i,
    {
        let d = (s[i] as u32 - '0' as u32) as u64;
        assert(s@.take(i + 1).drop_last() =~= s@.take(i as int));
        let next: u128 = (acc as u128) * 10 + (d as u128);
        if next > max as u128 {
            proof {
                lemma_digits_value_mono(s@, i + 1);
            }
            return None;
        }
        acc = next as u64;
        i = i + 1;
    }
    assert(s@.take(s@.len() as int) =~= s@);
    Some(acc)
}

/// `str::parse` for an unsigned integer type whose largest value is `max`.
pub fn parse_unsigned_exec(s: &[char], max: u64) -> (r: Option<u64>)
    ensures
        r matches Some(v) ==> parse_unsigned(s@, max as nat) == Some(v as nat),
        r is None ==> parse_unsigned(s@, max as nat) is None,
{
    let body = if s.len() > 0 && s[0] == '+' {
        &s[1..s.len()]
    } else {
        &s[0..s.len()]
    };
    assert(s@.subrange(1, s@.len() as int) =~= s@.drop_first());
    assert(s@.subrange(0, s@.len() as int) =~= s@);
    if body.len() == 0 || !all_ascii_digits(body) {
        return None;
    }
    digits_upto(body, max)
}

pub fn parse_u8(s: &[char]) -> (r: Option<u8>)
    ensures
        r matches Some(v) ==> parse_unsigned(s@, 255) == Some(v as nat),
        r is None ==> parse_unsigned(s@, 255) is None,
{
    match parse_unsigned_exec(s, 255) {
        Some(v) => Some(v as u8),
        None => None,
    }
}

pub fn parse_u16(s: &[char]) -> (r: Option<u16>)
    ensures
        r matches Some(v) ==> parse_unsigned(s@, 65535) == Some(v as nat),
        r is None ==> parse_unsigned(s@, 65535) is None,
{
    match parse_unsigned_exec(s, 65535) {
        Some(v) => Some(v as u16),
        None => None,
    }
}

pub fn parse_u32(s: &[char]) -> (r: Option<u32>)
    ensures
        r matches Some(v) ==> parse_unsigned(s@, 0xffff_ffff) == Some(v as nat),
        r is None ==> parse_unsigned(s@, 0xffff_ffff) is None,
{
    match parse_unsigned_exec(s, 0xffff_ffff) {
        Some(v) => Some(v as u32),
        None => None,
    }
}

pub open spec fn digit_char(d: nat) -> char {
    ((d + 48) as u32) as char
}

/// The decimal rendering of `n`, without leading zeros.
pub open spec fn dec(n: nat) -> Seq<char>
    decreases n,
{
    if n < 10 {
        seq![digit_char(n)]
    } else {
        dec(n / 10).push(digit_char(n % 10))
    }
}

/// `n` in decimal, at least `width` digits, padded with leading zeros.
pub open spec fn dec_padded(n: nat, width: nat) -> Seq<char> {
    let d = dec(n);
    if d.len() >= width {
        d
    } else {
        Seq::new((width - d.len()) as nat, |i: int| '0') + d
    }
}

pub fn push_dec(s: &mut String, n: u64)
    ensures
        final(s)@ == old(s)@ + dec(n as nat),
    decreases n,
{
    if n >= 10 {
        push_dec(s, n / 10);
    }
    let d = (n % 10) as u32;
    let c = char_from_ascii(d + 48);
    push_char(s, c);
    assert(dec(n as nat) == if n < 10 {
        seq![digit_char(n as nat)]
    } else {
        dec((n / 10) as nat).push(digit_char((n % 10) as nat))
    });
}

pub proof fn lemma_dec_len(n: nat)
    ensures
        dec(n).len() >= 1,
        n < 10 ==> dec(n).len() == 1,
        10 <= n < 100 ==> dec(n).len() == 2,
        n >= 10 ==> dec(n).len() == dec(n / 10).len() + 1,
    decreases n,
{
    if n >= 10 {
        lemma_dec_len(n / 10);
    }
}

/// The number of decimal digits of `n`.
pub fn dec_len(n: u64) -> (r: usize)
    ensures
        r == dec(n as nat).len(),
    decreases n,
{
    proof {
        lemma_dec_len(n as nat);
    }
    if n < 10 {
        1
    } else {
        let k = dec_len(n / 10);
        assert(k < 64) by {
            lemma_dec_len_bound(n / 10);
        }
        k + 1
    }
}

pub proof fn lemma_dec_len_bound(n: u64)
    ensures
        dec(n as nat).len() <= 20,
{
    lemma_pow10_20();
    lemma_dec_len_le(n as nat, 20);
}

proof fn lemma_dec_len_le(n: nat, k: nat)
    requires
        k >= 1,
        n < pow10(k),
    ensures
        dec(n).len() <= k,
    decreases n,
{
    lemma_dec_len(n);
    if n >= 10 {
        assert(k >= 2) by {
            if k == 1 {
                assert(pow10(1) == 10) by {
                    reveal_with_fuel(pow10, 2);
                }
            }
        }
        assert(pow10(k) == 10 * pow10((k - 1) as nat));
        assert(n / 10 < pow10((k - 1) as nat));
        lemma_dec_len_le(n / 10, (k - 1) as nat);
    }
}

pub open spec fn pow10(k: nat) -> nat
    decreases k,
{
    if k == 0 {
        1
    } else {
        10 * pow10((k - 1) as nat)
    }
}

proof fn lemma_pow10_20()
    ensures
        pow10(20) > 0xffff_ffff_ffff_ffff,
{
    reveal_with_fuel(pow10, 21);
}

/// Appends `n` in decimal, zero-padded to `width` digits.
pub fn push_dec_padded(s: &mut String, n: u64, width: usize)
    ensures
        final(s)@ == old(s)@ + dec_padded(n as nat, width as nat),
{
    let len = dec_len(n);
    let ghost s0 = s@;
    if len < width {
        let pad = width - len;
        let mut i: usize = 0;
        while i < pad
            invariant
                i <= pad,
                s@ == s0 + Seq::new(i as nat, |k: int| '0'),
            decreases pad - i,
        {
            push_char(s, '0');
            assert(s0 + Seq::new((i + 1) as nat, |k: int| '0') =~= (s0 + Seq::new(
                i as nat,
                |k: int| '0',
            )).push('0'));
            i = i + 1;
        }
    }
    let ghost mid = s@;
    push_dec(s, n);
    assert(s@ =~= s0 + dec_padded(n as nat, width as nat));
}

} // verus!

verus! {

/// `trim_start_matches` with a non-empty string pattern: the prefix removed as often as it
/// occurs.
pub open spec fn strip_all_prefix(s: Seq<char>, p: Seq<char>) -> Seq<char>
    decreases s.len(),
{
    if p.len() > 0 && has_prefix(s, p) {
        strip_all_prefix(s.skip(p.len() as int), p)
    } else {
        s
    }
}

pub fn strip_all_prefix_exec<'a>(s: &'a [char], p: &str) -> (r: &'a [char])
    ensures
        r@ == strip_all_prefix(s@, p@),
{
    let pv = chars_of(p);
    let pl = pv.len();
    let n = s.len();
    let mut i: usize = 0;
    assert(s@.skip(0) =~= s@);
    while pl > 0 && i <= n && pl <= n - i && starts_with(&s[i..n], pv.as_slice())
        invariant
            n == s@.len(),
            i <= n,
            pl == pv@.len(),
            pv@ == p@,
            strip_all_prefix(s@, p@) == strip_all_prefix(s@.skip(i as int), p@),
        decreases n - i,
    {
        assert(s@.subrange(i as int, n as int) =~= s@.skip(i as int));
        assert(s@.skip(i as int).skip(pl as int) =~= s@.skip(i + pl));
        i = i + pl;
    }
    assert(s@.subrange(i as int, n as int) =~= s@.skip(i as int));
    if pl > 0 && pl > n - i {
        assert(!has_prefix(s@.skip(i as int), p@));
    }
    &s[i..n]
}

/// The first position at or after `i` where `p` occurs.
pub open spec fn find_seq_from(s: Seq<char>, p: Seq<char>, i: int) -> Option<int>
    decreases s.len() + 1 - i,
{
    if i < 0 || i + p.len() > s.len() {
        None
    } else if occurs_at(s, p, i) {
        Some(i)
    } else {
        find_seq_from(s, p, i + 1)
    }
}

pub fn find_str(s: &[char], p: &str) -> (r: Option<usize>)
    ensures
        r matches Some(i) ==> find_seq_from(s@, p@, 0) == Some(i as int) && i + p@.len() <= s@.len(),
        r is None ==> find_seq_from(s@, p@, 0) is None,
{
    let pv = chars_of(p);
    let n = s.len();
    let pl = pv.len();
    if pl > n {
        return None;
    }
    let mut i: usize = 0;
    while i <= n - pl
        invariant
            n == s@.len(),
            pl == pv@.len(),
            pv@ == p@,
            pl <= n,
            i <= n - pl + 1,
            find_seq_from(s@, p@, 0) == find_seq_from(s@, p@, i as int),
        decreases n - pl + 1 - i,
    {
        if occurs_at_exec(s, pv.as_slice(), i) {
            return Some(i);
        }
        if i == n - pl {
            assert(find_seq_from(s@, p@, i + 1) is None);
            return None;
        }
        i = i + 1;
    }
    None
}

/// The part before the first `c`, or all of `s`.
pub open spec fn before_char(s: Seq<char>, c: char) -> Seq<char> {
    match find_char(s, c) {
        Some(i) => s.take(i),
        None => s,
    }
}

/// The part after the last `c`, or all of `s`.
pub open spec fn after_last_char(s: Seq<char>, c: char) -> Seq<char> {
    match rfind_char(s, c) {
        Some(i) => s.skip(i + 1),
        None => s,
    }
}

pub fn before_char_exec<'a>(s: &'a [char], c: char) -> (r: &'a [char])
    ensures
        r@ == before_char(s@, c),
{
    proof {
        lemma_find_char(s@, c);
    }
    match find_in(s, c) {
        Some(i) => &s[0..i],
        None => &s[0..s.len()],
    }
}

pub fn after_last_char_exec<'a>(s: &'a [char], c: char) -> (r: &'a [char])
    ensures
        r@ == after_last_char(s@, c),
{
    proof {
        lemma_rfind_char(s@, c);
    }
    let n = s.len();
    match rfind_in(s, c) {
        Some(i) => &s[i + 1..n],
        None => &s[0..n],
    }
}

// ---------------------------------------------------------------------
// Facts about decimal text and splitting
// ---------------------------------------------------------------------

pub proof fn lemma_digit_char(d: nat)
    requires
        d < 10,
    ensures
        is_digit(digit_char(d)),
        digit_value(digit_char(d)) == d,
        !is_ws(digit_char(d)),
        digit_char(d) != '.',
        digit_char(d) != '/',
{
    let u = (d + 48) as u32;
    assert(u as char == digit_char(d));
    vstd::utf8::char_u32_cast(digit_char(d), (digit_char(d) as u32));
}

/// The decimal text of `n` is a non-empty run of digits whose value is `n`.
pub proof fn lemma_dec_digits(n: nat)
    ensures
        dec(n).len() >= 1,
        all_digits(dec(n)),
        digits_value(dec(n)) == n,
        !dec(n).contains('.'),
        !dec(n).contains('/'),
        forall|i: int| 0 <= i < dec(n).len() ==> !is_ws(#[trigger] dec(n)[i]),
    decreases n,
{
    if n < 10 {
        lemma_digit_char(n);
        let s = dec(n);
        assert(s.drop_last() =~= Seq::<char>::empty());
        assert(s[0] == digit_char(n));
        assert(digits_value(s.drop_last()) == 0);
        assert(digits_value(s) == digits_value(s.drop_last()) * 10 + digit_value(s.last()));
    } else {
        lemma_dec_digits(n / 10);
        lemma_digit_char(n % 10);
        let p = dec(n / 10);
        let s = dec(n);
        assert(s == p.push(digit_char(n % 10)));
        assert(s.drop_last() =~= p);
        assert(s.last() == digit_char(n % 10));
        assert(digits_value(s) == digits_value(p) * 10 + digit_value(s.last()));
        assert((n / 10) * 10 + n % 10 == n) by (nonlinear_arith);
        assert forall|i: int| 0 <= i < s.len() implies is_digit(#[trigger] s[i]) && !is_ws(s[i])
            && s[i] != '.' && s[i] != '/' by {
            if i < p.len() {
                assert(s[i] == p[i]);
                if p[i] == '.' {
                    assert(p.contains('.'));
                }
                if p[i] == '/' {
                    assert(p.contains('/'));
                }
            }
        }
    }
}

/// Splitting a text without separators gives the text itself.
pub proof fn lemma_split_no_sep(t: Seq<char>, c: char)
    requires
        !t.contains(c),
    ensures
        split_set(t, CharSet::One(c)) == seq![t],
    decreases t.len(),
{
    if t.len() > 0 {
        let u = t.drop_last();
        assert(!u.contains(c)) by {
            if u.contains(c) {
                let k = choose|k: int| 0 <= k < u.len() && u[k] == c;
                assert(t[k] == c);
            }
        }
        lemma_split_no_sep(u, c);
        assert(t[t.len() - 1] != c);
        assert(u.push(t.last()) =~= t);
    } else {
        assert(t =~= Seq::<char>::empty());
    }
}

/// Splitting `s`, a separator, and a text without separators gives the pieces of `s` and
/// then that text.
pub proof fn lemma_split_append(s: Seq<char>, t: Seq<char>, c: char)
    requires
        !t.contains(c),
    ensures
        split_set(s + seq![c] + t, CharSet::One(c)) == split_set(s, CharSet::One(c)).push(t),
    decreases t.len(),
{
    let w = s + seq![c] + t;
    if t.len() == 0 {
        assert(w.drop_last() =~= s);
        assert(t =~= Seq::<char>::empty());
    } else {
        let u = t.drop_last();
        assert(!u.contains(c)) by {
            if u.contains(c) {
                let k = choose|k: int| 0 <= k < u.len() && u[k] == c;
                assert(t[k] == c);
            }
        }
        lemma_split_append(s, u, c);
        assert(w.drop_last() =~= s + seq![c] + u);
        assert(w.last() == t.last());
        assert(t[t.len() - 1] != c);
        let r = split_set(s + seq![c] + u, CharSet::One(c));
        assert(r.update(r.len() - 1, r.last().push(t.last())) =~= split_set(s, CharSet::One(c)).push(
            t,
        )) by {
            assert(u.push(t.last()) =~= t);
        }
    }
}

} // verus!
