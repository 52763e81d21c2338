use vstd::prelude::*;
use vstd::string::*;
use vstd::utf8::{decode_utf8, valid_utf8};
use crate::common::text::{
    CharSet, lower_seq, lower_string, push_chars, split_slice, trim, trim_ws,
    lemma_deep_chars,
};

verus! {

// ---------------------------------------------------------------------
// Quotes
// ---------------------------------------------------------------------

/// The text without one pair of matching surrounding quotes (`"` or `'`), if it has them.
pub open spec fn spec_strip_quotes(s: Seq<char>) -> Seq<char> {
    if s.len() >= 2 && ((s[0] == '"' && s.last() == '"') || (s[0] == '\'' && s.last() == '\'')) {
        s.subrange(1, s.len() - 1)
    } else {
        s
    }
}

/// Removes one pair of matching surrounding quotes.
pub fn strip_quotes<'a>(s: &'a [char]) -> (r: &'a [char])
    ensures
        r@ == spec_strip_quotes(s@),
{
    let n = s.len();
    if n >= 2 && ((s[0] == '"' && s[n - 1] == '"') || (s[0] == '\'' && s[n - 1] == '\'')) {
        &s[1..n - 1]
    } else {
        &s[0..n]
    }
}

/// `to_ascii_lowercase` of a string.
pub fn lower_ascii(s: &str) -> (r: String)
    ensures
        r@ == lower_seq(s@),
{
    let v = crate::common::text::chars_of(s);
    lower_string(v.as_slice())
}

// ---------------------------------------------------------------------
// Percent decoding
// ---------------------------------------------------------------------

pub open spec fn is_hex_byte(b: u8) -> bool {
    (48 <= b <= 57) || (97 <= b <= 102) || (65 <= b <= 70)
}

pub open spec fn hex_byte_value(b: u8) -> nat {
    if 48 <= b <= 57 {
        (b - 48) as nat
    } else if 97 <= b <= 102 {
        (b - 87) as nat
    } else {
        (b - 55) as nat
    }
}

/// Bytes with each `%` followed by two hex digits replaced by the byte they name.
pub open spec fn percent_decode(s: Seq<u8>) -> Seq<u8>
    decreases s.len(),
{
    if s.len() == 0 {
        Seq::empty()
    } else if s.len() >= 3 && s[0] == 37 && is_hex_byte(s[1]) && is_hex_byte(s[2]) {
        seq![(hex_byte_value(s[1]) * 16 + hex_byte_value(s[2])) as u8] + percent_decode(s.skip(3))
    } else {
        seq![s[0]] + percent_decode(s.skip(1))
    }
}

/// What `String::from_utf8_lossy` makes of a byte sequence.
pub uninterp spec fn utf8_lossy(bytes: Seq<u8>) -> Seq<char>;

/// The text bytes read as UTF-8: their decoding where they are valid UTF-8, and otherwise
/// what `String::from_utf8_lossy` makes of them.
pub open spec fn lossy_text(bytes: Seq<u8>) -> Seq<char> {
    if valid_utf8(bytes) {
        decode_utf8(bytes)
    } else {
        utf8_lossy(bytes)
    }
}

/// `String::from_utf8_lossy`: the text the bytes encode, invalid sequences replaced by
/// U+FFFD. The contract names the result and states only that valid UTF-8 decodes to the
/// text it encodes; how invalid sequences are replaced is left unsaid.
#[verifier::external_body]
pub(crate) fn string_from_utf8_lossy(bytes: &[u8]) -> (r: String)
    ensures
        r@ == utf8_lossy(bytes@),
        valid_utf8(bytes@) ==> r@ == decode_utf8(bytes@),
{
    String::from_utf8_lossy(bytes).into_owned()
}

fn hex_value_exec(b: u8) -> (r: u8)
    requires
        is_hex_byte(b),
    ensures
        r == hex_byte_value(b),
{
    if 48 <= b && b <= 57 {
        b - 48
    } else if 97 <= b && b <= 102 {
        b - 87
    } else {
        b - 55
    }
}

fn is_hex_byte_exec(b: u8) -> (r: bool)
    ensures
        r == is_hex_byte(b),
{
    (48 <= b && b <= 57) || (97 <= b && b <= 102) || (65 <= b && b <= 70)
}

/// Decodes `%XX` escapes in the UTF-8 bytes of `s`, then reads the bytes back as UTF-8,
/// replacing invalid sequences.
pub fn percent_decode_lossy(s: &str) -> (r: String)
    ensures
        r@ == lossy_text(percent_decode(s.spec_bytes())),
{
    let b = s.as_bytes();
    let n = b.len();
    let mut out: Vec<u8> = Vec::new();
    let mut i: usize = 0;
    assert(b@.skip(0) =~= b@);
    while i < n
        invariant
            n == b@.len(),
            i <= n,
            out@ + percent_decode(b@.skip(i as int)) == percent_decode(b@),
        decreases n - i,
    {
        let ghost rest = b@.skip(i as int);
        if n - i >= 3 && b[i] == 37 && is_hex_byte_exec(b[i + 1]) && is_hex_byte_exec(b[i + 2]) {
            let v = hex_value_exec(b[i + 1]) * 16 + hex_value_exec(b[i + 2]);
            assert(rest.skip(3) =~= b@.skip(i + 3));
            assert(rest[1] == b@[i + 1] && rest[2] == b@[i + 2]);
            let ghost before = out@;
            out.push(v);
            assert(out@ + percent_decode(b@.skip(i + 3)) =~= before + percent_decode(rest));
            i = i + 3;
        } else {
            assert(rest.skip(1) =~= b@.skip(i + 1));
            let ghost before = out@;
            out.push(b[i]);
            assert(out@ + percent_decode(b@.skip(i + 1)) =~= before + percent_decode(rest));
            i = i + 1;
        }
    }
    assert(b@.skip(n as int) =~= Seq::<u8>::empty());
    assert(out@ =~= percent_decode(b@));
    string_from_utf8_lossy(out.as_slice())
}

// ---------------------------------------------------------------------
// Comma separated fields
// ---------------------------------------------------------------------

/// The state after scanning part of a comma-separated line: the finished fields, the field
/// being read, and whether a quote is open.
pub open spec fn csv_scan(s: Seq<char>) -> (Seq<Seq<char>>, Seq<char>, bool)
    decreases s.len(),
{
    if s.len() == 0 {
        (Seq::empty(), Seq::empty(), false)
    } else {
        let (done, cur, q) = csv_scan(s.drop_last());
        let c = s.last();
        if c == '"' {
            (done, cur, !q)
        } else if c == ',' && !q {
            (done.push(trim(cur)), Seq::empty(), q)
        } else {
            (done, cur.push(c), q)
        }
    }
}

/// The fields of a comma-separated line: split at commas outside double quotes, quote
/// characters dropped, each field trimmed.
pub open spec fn spec_split_csv(s: Seq<char>) -> Seq<Seq<char>> {
    let (done, cur, q) = csv_scan(s);
    done.push(trim(cur))
}

pub fn split_csv_line(line: &[char]) -> (r: Vec<String>)
    ensures
        r.deep_view() == spec_split_csv(line@),
{
    let mut done: Vec<String> = Vec::new();
    let mut cur: Vec<char> = Vec::new();
    let mut q = false;
    let mut i: usize = 0;
    while i < line.len()
        invariant
            i <= line@.len(),
            csv_scan(line@.take(i as int)) == (done.deep_view(), cur@, q),
        decreases line@.len() - i,
    {
        let c = line[i];
        assert(line@.take(i + 1).drop_last() =~= line@.take(i as int));
        if c == '"' {
            q = !q;
        } else if c == ',' && !q {
            let t = trim_ws(cur.as_slice());
            let f = crate::common::text::string_of(t);
            let ghost old_done = done.deep_view();
            done.push(f);
            assert(done.deep_view() =~= old_done.push(trim(cur@)));
            cur = Vec::new();
        } else {
            cur.push(c);
        }
        i = i + 1;
    }
    assert(line@.take(line@.len() as int) =~= line@);
    let t = trim_ws(cur.as_slice());
    let f = crate::common::text::string_of(t);
    let ghost old_done = done.deep_view();
    done.push(f);
    assert(done.deep_view() =~= old_done.push(trim(cur@)));
    done
}

} // verus!
