use vstd::prelude::*;
use vstd::string::*;
use crate::common::text::{chars_of, is_ascii_ws, is_ascii_whitespace, push_char};

verus! {

/// One token of an IDS rule.
#[derive(Debug, Clone, PartialEq, Eq)]
pub enum RuleToken {
    Word(String),
    Quoted(String),
    LParen,
    RParen,
    Colon,
    Semicolon,
    Bang,
    BracketOpen,
    BracketClose,
    Comma,
}

pub ghost enum TokenView {
    Word(Seq<char>),
    Quoted(Seq<char>),
    LParen,
    RParen,
    Colon,
    Semicolon,
    Bang,
    BracketOpen,
    BracketClose,
    Comma,
}

impl View for RuleToken {
    type V = TokenView;

    open spec fn view(&self) -> TokenView {
        match self {
            RuleToken::Word(w) => TokenView::Word(w@),
            RuleToken::Quoted(q) => TokenView::Quoted(q@),
            RuleToken::LParen => TokenView::LParen,
            RuleToken::RParen => TokenView::RParen,
            RuleToken::Colon => TokenView::Colon,
            RuleToken::Semicolon => TokenView::Semicolon,
            RuleToken::Bang => TokenView::Bang,
            RuleToken::BracketOpen => TokenView::BracketOpen,
            RuleToken::BracketClose => TokenView::BracketClose,
            RuleToken::Comma => TokenView::Comma,
        }
    }
}

pub open spec fn token_views(v: Seq<RuleToken>) -> Seq<TokenView> {
    v.map_values(|t: RuleToken| t@)
}

/// A character that is a token by itself.
pub open spec fn is_punct(c: char) -> bool {
    c == '(' || c == ')' || c == ':' || c == ';' || c == '!' || c == '[' || c == ']' || c == ','
}

pub open spec fn punct_token(c: char) -> TokenView {
    if c == '(' {
        TokenView::LParen
    } else if c == ')' {
        TokenView::RParen
    } else if c == ':' {
        TokenView::Colon
    } else if c == ';' {
        TokenView::Semicolon
    } else if c == '!' {
        TokenView::Bang
    } else if c == '[' {
        TokenView::BracketOpen
    } else if c == ']' {
        TokenView::BracketClose
    } else {
        TokenView::Comma
    }
}

/// A character that ends a word.
pub open spec fn is_word_stop(c: char) -> bool {
    is_ascii_ws(c) || is_punct(c) || c == '"'
}

/// The value of a quoted token, read from just after its opening quote: a backslash takes
/// the next character as it is, and the token ends at an unescaped quote or at the end.
pub open spec fn quoted_value(t: Seq<char>) -> Seq<char>
    decreases t.len(),
{
    if t.len() == 0 {
        Seq::empty()
    } else if t[0] == '\\' {
        if t.len() >= 2 {
            seq![t[1]] + quoted_value(t.skip(2))
        } else {
            Seq::empty()
        }
    } else if t[0] == '"' {
        Seq::empty()
    } else {
        seq![t[0]] + quoted_value(t.skip(1))
    }
}

/// How many characters a quoted token takes after its opening quote, closing quote included.
pub open spec fn quoted_len(t: Seq<char>) -> nat
    decreases t.len(),
{
    if t.len() == 0 {
        0
    } else if t[0] == '\\' {
        if t.len() >= 2 {
            2 + quoted_len(t.skip(2))
        } else {
            1
        }
    } else if t[0] == '"' {
        1
    } else {
        1 + quoted_len(t.skip(1))
    }
}

/// How many characters at the start of `t` belong to a word.
pub open spec fn word_len(t: Seq<char>) -> nat
    decreases t.len(),
{
    if t.len() == 0 || is_word_stop(t[0]) {
        0
    } else {
        1 + word_len(t.skip(1))
    }
}

pub proof fn lemma_quoted_len(t: Seq<char>)
    ensures
        quoted_len(t) <= t.len(),
    decreases t.len(),
{
    if t.len() >= 2 && t[0] == '\\' {
        lemma_quoted_len(t.skip(2));
    } else if t.len() > 0 && t[0] != '"' && t[0] != '\\' {
        lemma_quoted_len(t.skip(1));
    }
}

pub proof fn lemma_word_len(t: Seq<char>)
    ensures
        word_len(t) <= t.len(),
    decreases t.len(),
{
    if t.len() > 0 && !is_word_stop(t[0]) {
        lemma_word_len(t.skip(1));
    }
}

/// The tokens of a rule text.
pub open spec fn lex_tokens(s: Seq<char>) -> Seq<TokenView>
    decreases s.len(),
{
    if s.len() == 0 {
        Seq::empty()
    } else if is_ascii_ws(s[0]) {
        lex_tokens(s.skip(1))
    } else if is_punct(s[0]) {
        seq![punct_token(s[0])] + lex_tokens(s.skip(1))
    } else if s[0] == '"' {
        let t = s.skip(1);
        proof {
            lemma_quoted_len(t);
        }
        seq![TokenView::Quoted(quoted_value(t))] + lex_tokens(s.skip(1 + quoted_len(t) as int))
    } else {
        let n: int = 1 + word_len(s.skip(1)) as int;
        proof {
            lemma_word_len(s.skip(1));
        }
        seq![TokenView::Word(s.take(n))] + lex_tokens(s.skip(n))
    }
}

fn punct_of(c: char) -> (r: Option<RuleToken>)
    ensures
        r matches Some(t) ==> is_punct(c) && t@ == punct_token(c),
        r is None ==> !is_punct(c),
{
    if c == '(' {
        Some(RuleToken::LParen)
    } else if c == ')' {
        Some(RuleToken::RParen)
    } else if c == ':' {
        Some(RuleToken::Colon)
    } else if c == ';' {
        Some(RuleToken::Semicolon)
    } else if c == '!' {
        Some(RuleToken::Bang)
    } else if c == '[' {
        Some(RuleToken::BracketOpen)
    } else if c == ']' {
        Some(RuleToken::BracketClose)
    } else if c == ',' {
        Some(RuleToken::Comma)
    } else {
        None
    }
}

fn word_stop(c: char) -> (r: bool)
    ensures
        r == is_word_stop(c),
{
    is_ascii_whitespace(c) || c == '(' || c == ')' || c == ':' || c == ';' || c == '!' || c == '['
        || c == ']' || c == ',' || c == '"'
}

/// Reads a quoted token whose opening quote stands just before `start`.
fn scan_quoted(v: &[char], start: usize) -> (r: (String, usize))
    requires
        start <= v@.len(),
    ensures
        r.0@ == quoted_value(v@.skip(start as int)),
        r.1 == start + quoted_len(v@.skip(start as int)),
        r.1 <= v@.len(),
{
    let ghost s = v@;
    let mut value = String::new();
    let mut j: usize = start;
    proof {
        lemma_quoted_len(s.skip(start as int));
    }
    loop
        invariant
            start <= j <= s.len(),
            s == v@,
            value@ + quoted_value(s.skip(j as int)) == quoted_value(s.skip(start as int)),
            j - start + quoted_len(s.skip(j as int)) == quoted_len(s.skip(start as int)),
        decreases s.len() - j,
    {
        let ghost t = s.skip(j as int);
        if j == v.len() {
            assert(t.len() == 0);
            assert(value@ =~= quoted_value(s.skip(start as int)));
            return (value, j);
        }
        assert(t[0] == v@[j as int]);
        let c = v[j];
        if c == '\\' {
            if j + 1 < v.len() {
                let ghost before = value@;
                push_char(&mut value, v[j + 1]);
                assert(t[1] == v@[j + 1]);
                assert(t.skip(2) =~= s.skip(j + 2));
                assert(before + quoted_value(t) == value@ + quoted_value(s.skip(j + 2)));
                j = j + 2;
            } else {
                assert(quoted_value(t) =~= Seq::<char>::empty());
                assert(value@ =~= value@ + quoted_value(t));
                return (value, j + 1);
            }
        } else if c == '"' {
            assert(quoted_value(t) =~= Seq::<char>::empty());
            assert(value@ =~= value@ + quoted_value(t));
            return (value, j + 1);
        } else {
            let ghost before = value@;
            push_char(&mut value, c);
            assert(t.skip(1) =~= s.skip(j + 1));
            assert(before + quoted_value(t) == value@ + quoted_value(s.skip(j + 1)));
            j = j + 1;
        }
    }
}

/// The end of a word whose first character stands just before `start`.
fn scan_word(v: &[char], start: usize) -> (r: usize)
    requires
        start <= v@.len(),
    ensures
        r == start + word_len(v@.skip(start as int)),
        r <= v@.len(),
{
    let ghost s = v@;
    let mut j: usize = start;
    proof {
        lemma_word_len(s.skip(start as int));
    }
    while j < v.len() && !word_stop(v[j])
        invariant
            start <= j <= s.len(),
            s == v@,
            j - start + word_len(s.skip(j as int)) == word_len(s.skip(start as int)),
        decreases s.len() - j,
    {
        let ghost t = s.skip(j as int);
        assert(t[0] == s[j as int]);
        assert(t.skip(1) =~= s.skip(j + 1));
        j = j + 1;
    }
    let ghost t = s.skip(j as int);
    if j < v.len() {
        assert(t[0] == s[j as int]);
    }
    j
}

/// The tokens of a rule: punctuation, quoted strings and words, with ASCII whitespace
/// between them dropped.
pub fn lex_rule(input: &str) -> (r: Vec<RuleToken>)
    ensures
        token_views(r@) == lex_tokens(input@),
{
    let v = chars_of(input);
    let ghost s = v@;
    let mut tokens: Vec<RuleToken> = Vec::new();
    let mut i: usize = 0;
    assert(s.skip(0) =~= s);
    assert(token_views(tokens@) + lex_tokens(s) =~= lex_tokens(s));
    while i < v.len()
        invariant
            i <= s.len(),
            s == v@,
            token_views(tokens@) + lex_tokens(s.skip(i as int)) == lex_tokens(s),
        decreases s.len() - i,
    {
        let ghost t = s.skip(i as int);
        let ghost before = token_views(tokens@);
        assert(t[0] == s[i as int]);
        let c = v[i];
        if is_ascii_whitespace(c) {
            assert(t.skip(1) =~= s.skip(i + 1));
            i = i + 1;
        } else {
            match punct_of(c) {
                Some(tok) => {
                    tokens.push(tok);
                    assert(t.skip(1) =~= s.skip(i + 1));
                    assert(token_views(tokens@) =~= before.push(punct_token(c)));
                    assert(before + lex_tokens(t) =~= token_views(tokens@) + lex_tokens(
                        s.skip(i + 1),
                    ));
                    i = i + 1;
                },
                None => {
                    if c == '"' {
                        let (value, end) = scan_quoted(v.as_slice(), i + 1);
                        assert(t.skip(1) =~= s.skip(i + 1));
                        assert(t.skip(1 + quoted_len(t.skip(1)) as int) =~= s.skip(end as int));
                        tokens.push(RuleToken::Quoted(value));
                        assert(token_views(tokens@) =~= before.push(
                            TokenView::Quoted(quoted_value(t.skip(1))),
                        ));
                        assert(before + lex_tokens(t) =~= token_views(tokens@) + lex_tokens(
                            s.skip(end as int),
                        ));
                        i = end;
                    } else {
                        let end = scan_word(v.as_slice(), i + 1);
                        assert(t.skip(1) =~= s.skip(i + 1));
                        let n = end - i;
                        assert(t.skip(n as int) =~= s.skip(end as int));
                        assert(t.take(n as int) =~= v@.subrange(i as int, end as int));
                        let mut word = String::new();
                        let mut k: usize = i;
                        while k < end
                            invariant
                                i <= k <= end,
                                end <= v@.len(),
                                word@ =~= v@.subrange(i as int, k as int),
                            decreases end - k,
                        {
                            push_char(&mut word, v[k]);
                            assert(v@.subrange(i as int, k + 1) =~= v@.subrange(
                                i as int,
                                k as int,
                            ).push(v@[k as int]));
                            k = k + 1;
                        }
                        tokens.push(RuleToken::Word(word));
                        assert(token_views(tokens@) =~= before.push(
                            TokenView::Word(t.take(n as int)),
                        ));
                        assert(before + lex_tokens(t) =~= token_views(tokens@) + lex_tokens(
                            s.skip(end as int),
                        ));
                        i = end;
                    }
                },
            }
        }
    }
    assert(s.skip(i as int) =~= Seq::<char>::empty());
    assert(token_views(tokens@) + lex_tokens(s.skip(i as int)) =~= token_views(tokens@));
    tokens
}

} // verus!
