use vstd::prelude::*;
use crate::text::str_eq;

verus! {

/// The kinds of token of the source language.
#[derive(Clone, Copy, Debug, PartialEq, Eq, Structural)]
pub enum TokenKind {
    LetKw,
    IfKw,
    ElseKw,
    Ident,
    Number,
    Equals,
    Plus,
    Error,
}

/// A token: its kind and the text it spans.
#[derive(Clone, Copy, Debug)]
pub struct Token<'a> {
    pub text: &'a str,
    pub kind: TokenKind,
}

pub open spec fn is_lower(c: char) -> bool {
    'a' <= c && c <= 'z'
}

pub open spec fn is_digit(c: char) -> bool {
    '0' <= c && c <= '9'
}

pub open spec fn is_space(c: char) -> bool {
    c == ' ' || c == '\t' || c == '\n'
}

/// Where the run of identifier characters (lower-case letters and digits)
/// that starts at `i` ends.
pub open spec fn ident_end(s: Seq<char>, i: int) -> int
    decreases s.len() - i,
{
    if 0 <= i < s.len() && (is_lower(s[i]) || is_digit(s[i])) {
        ident_end(s, i + 1)
    } else {
        i
    }
}

/// Where the run of digits that starts at `i` ends.
pub open spec fn digits_end(s: Seq<char>, i: int) -> int
    decreases s.len() - i,
{
    if 0 <= i < s.len() && is_digit(s[i]) {
        digits_end(s, i + 1)
    } else {
        i
    }
}

/// The kind of a word: a keyword, or else an identifier.
pub open spec fn word_kind(w: Seq<char>) -> TokenKind {
    if w == "let"@ {
        TokenKind::LetKw
    } else if w == "if"@ {
        TokenKind::IfKw
    } else if w == "else"@ {
        TokenKind::ElseKw
    } else {
        TokenKind::Ident
    }
}

/// The longest token that starts at `i` (which holds no blank): its kind and
/// where it ends.  A character that starts no token is an error token of its own.
pub open spec fn token_at(s: Seq<char>, i: int) -> (TokenKind, int) {
    let c = s[i];
    if is_lower(c) {
        let e = ident_end(s, i + 1);
        (word_kind(s.subrange(i, e)), e)
    } else if is_digit(c) {
        (TokenKind::Number, digits_end(s, i + 1))
    } else if c == '=' {
        (TokenKind::Equals, i + 1)
    } else if c == '+' {
        (TokenKind::Plus, i + 1)
    } else {
        (TokenKind::Error, i + 1)
    }
}

/// The tokens of `s` from position `i` on, each as kind, start and end;
/// blanks separate tokens and are dropped.
pub open spec fn lex_from(s: Seq<char>, i: int) -> Seq<(TokenKind, int, int)>
    decreases s.len() - i,
{
    if i < 0 || i >= s.len() {
        Seq::empty()
    } else if is_space(s[i]) {
        lex_from(s, i + 1)
    } else {
        let (k, e) = token_at(s, i);
        if e <= i || e > s.len() {
            Seq::empty()
        } else {
            seq![(k, i, e)] + lex_from(s, e)
        }
    }
}

proof fn lemma_ident_end(s: Seq<char>, i: int)
    requires
        0 <= i <= s.len(),
    ensures
        i <= ident_end(s, i) <= s.len(),
    decreases s.len() - i,
{
    if i < s.len() && (is_lower(s[i]) || is_digit(s[i])) {
        lemma_ident_end(s, i + 1);
    }
}

proof fn lemma_digits_end(s: Seq<char>, i: int)
    requires
        0 <= i <= s.len(),
    ensures
        i <= digits_end(s, i) <= s.len(),
    decreases s.len() - i,
{
    if i < s.len() && is_digit(s[i]) {
        lemma_digits_end(s, i + 1);
    }
}

fn char_is_lower(c: char) -> (r: bool)
    ensures
        r == is_lower(c),
{
    'a' <= c && c <= 'z'
}

fn char_is_digit(c: char) -> (r: bool)
    ensures
        r == is_digit(c),
{
    '0' <= c && c <= '9'
}

/// Split `text` into tokens: the longest match at each point, keywords
/// before identifiers, blanks skipped.
pub fn lex(text: &str) -> (tokens: Vec<Token<'_>>)
    ensures
        tokens@.len() == lex_from(text@, 0).len(),
        forall|j: int|
            0 <= j < tokens@.len() ==> (#[trigger] tokens@[j]).kind == lex_from(text@, 0)[j].0
                && tokens@[j].text@ == text@.subrange(lex_from(text@, 0)[j].1, lex_from(text@, 0)[j].2),
{
    let ghost s = text@;
    let n = text.unicode_len();
    let mut tokens: Vec<Token<'_>> = Vec::new();
    let ghost mut done: Seq<(TokenKind, int, int)> = Seq::empty();
    let mut i: usize = 0;
    while i < n
        invariant
            n == s.len(),
            s == text@,
            i <= n,
            lex_from(s, 0) == done + lex_from(s, i as int),
            tokens@.len() == done.len(),
            forall|j: int|
                0 <= j < tokens@.len() ==> (#[trigger] tokens@[j]).kind == done[j].0 && tokens@[j].text@
                    == s.subrange(done[j].1, done[j].2),
        decreases n - i,
    {
        let c = text.get_char(i);
        if c == ' ' || c == '\t' || c == '\n' {
            i = i + 1;
        } else {
            let start = i;
            let kind;
            if char_is_lower(c) {
                i = i + 1;
                proof { lemma_ident_end(s, i as int); }
                while i < n && (char_is_lower(text.get_char(i)) || char_is_digit(text.get_char(i)))
                    invariant
                        n == s.len(),
                        s == text@,
                        start < i <= n,
                        ident_end(s, i as int) == ident_end(s, start + 1),
                    decreases n - i,
                {
                    i = i + 1;
                }
                let word = text.substring_char(start, i);
                kind = if str_eq(word, "let") {
                    TokenKind::LetKw
                } else if str_eq(word, "if") {
                    TokenKind::IfKw
                } else if str_eq(word, "else") {
                    TokenKind::ElseKw
                } else {
                    TokenKind::Ident
                };
            } else if char_is_digit(c) {
                i = i + 1;
                while i < n && char_is_digit(text.get_char(i))
                    invariant
                        n == s.len(),
                        s == text@,
                        start < i <= n,
                        digits_end(s, i as int) == digits_end(s, start + 1),
                    decreases n - i,
                {
                    i = i + 1;
                }
                kind = TokenKind::Number;
            } else {
                kind = if c == '=' {
                    TokenKind::Equals
                } else if c == '+' {
                    TokenKind::Plus
                } else {
                    TokenKind::Error
                };
                i = i + 1;
            }
            assert(token_at(s, start as int) == (kind, i as int));
            let token = Token { text: text.substring_char(start, i), kind };
            tokens.push(token);
            proof {
                assert(lex_from(s, start as int) == seq![(kind, start as int, i as int)] + lex_from(s, i as int));
                done = done.push((kind, start as int, i as int));
                assert(lex_from(s, 0) == done + lex_from(s, i as int));
            }
        }
    }
    assert(lex_from(s, i as int) =~= Seq::empty());
    assert(done =~= lex_from(s, 0));
    tokens
}

} // verus!
