//! The tokens of the condition language.
//!
//! A condition is text such as `x > 0 && !(done == true)`. This module says
//! which sequences of characters are sequences of tokens, and splits them.

use vstd::prelude::*;

verus! {

/// One token. Names and quoted texts are given by where they stand in the source.
#[derive(Clone, Copy, Debug, PartialEq, Eq)]
pub enum Token {
    Ident { start: usize, end: usize },
    Int(i64),
    Text { start: usize, end: usize },
    True,
    False,
    Null,
    LParen,
    RParen,
    Not,
    And,
    Or,
    Eq,
    Ne,
    Lt,
    Le,
    Gt,
    Ge,
}

/// The classes of characters of which a run is scanned at once.
#[derive(Clone, Copy, Debug)]
pub enum CharClass {
    Space,
    Digit,
    Word,
    Quoted,
}

pub open spec fn is_space(c: char) -> bool {
    c == ' ' || c == '\t' || c == '\n' || c == '\r'
}

pub open spec fn is_digit(c: char) -> bool {
    '0' <= c && c <= '9'
}

pub open spec fn is_word_start(c: char) -> bool {
    ('a' <= c && c <= 'z') || ('A' <= c && c <= 'Z') || c == '_'
}

pub open spec fn class_has(class: CharClass, c: char) -> bool {
    match class {
        CharClass::Space => is_space(c),
        CharClass::Digit => is_digit(c),
        CharClass::Word => is_word_start(c) || is_digit(c) || c == '.',
        CharClass::Quoted => c != '"',
    }
}

/// Where the run of `class` characters that begins at `pos` ends.
pub open spec fn run_end(s: Seq<char>, pos: int, class: CharClass) -> int
    decreases s.len() - pos,
{
    if 0 <= pos < s.len() && class_has(class, s[pos]) {
        run_end(s, pos + 1, class)
    } else {
        pos
    }
}

/// The number that a sequence of decimal digits writes.
pub open spec fn digits_value(digits: Seq<char>) -> int
    decreases digits.len(),
{
    if digits.len() == 0 {
        0
    } else {
        10 * digits_value(digits.drop_last()) + (digits.last() as int - '0' as int)
    }
}

/// The integer token for `digits` with an optional minus sign, if it fits.
pub open spec fn int_token(digits: Seq<char>, negative: bool) -> Option<Token> {
    let magnitude = digits_value(digits);
    let value = if negative {
        -magnitude
    } else {
        magnitude
    };
    if i64::MIN <= value <= i64::MAX {
        Some(Token::Int(value as i64))
    } else {
        None
    }
}

/// The token that the word at `start..end` is: a keyword or a name.
pub open spec fn word_token(s: Seq<char>, start: int, end: int) -> Token {
    let w = s.subrange(start, end);
    if w == seq!['t', 'r', 'u', 'e'] {
        Token::True
    } else if w == seq!['f', 'a', 'l', 's', 'e'] {
        Token::False
    } else if w == seq!['n', 'u', 'l', 'l'] {
        Token::Null
    } else {
        Token::Ident { start: start as usize, end: end as usize }
    }
}

/// The token that begins at `pos`, and where it ends.
pub open spec fn token_at(s: Seq<char>, pos: int) -> Option<(Token, int)>
    recommends
        0 <= pos < s.len(),
{
    let n = s.len();
    let c = s[pos];
    let followed_by_eq = pos + 1 < n && s[pos + 1] == '=';
    if c == '(' {
        Some((Token::LParen, pos + 1))
    } else if c == ')' {
        Some((Token::RParen, pos + 1))
    } else if c == '!' {
        if followed_by_eq {
            Some((Token::Ne, pos + 2))
        } else {
            Some((Token::Not, pos + 1))
        }
    } else if c == '<' {
        if followed_by_eq {
            Some((Token::Le, pos + 2))
        } else {
            Some((Token::Lt, pos + 1))
        }
    } else if c == '>' {
        if followed_by_eq {
            Some((Token::Ge, pos + 2))
        } else {
            Some((Token::Gt, pos + 1))
        }
    } else if c == '=' {
        if followed_by_eq {
            Some((Token::Eq, pos + 2))
        } else {
            None
        }
    } else if c == '&' {
        if pos + 1 < s.len() && s[pos + 1] == '&' {
            Some((Token::And, pos + 2))
        } else {
            None
        }
    } else if c == '|' {
        if pos + 1 < s.len() && s[pos + 1] == '|' {
            Some((Token::Or, pos + 2))
        } else {
            None
        }
    } else if c == '"' {
        let close = run_end(s, pos + 1, CharClass::Quoted);
        if close < s.len() {
            Some((Token::Text { start: (pos + 1) as usize, end: close as usize }, close + 1))
        } else {
            None
        }
    } else if is_digit(c) {
        let end = run_end(s, pos, CharClass::Digit);
        match int_token(s.subrange(pos, end), false) {
            Some(t) => Some((t, end)),
            None => None,
        }
    } else if c == '-' {
        if pos + 1 < s.len() && is_digit(s[pos + 1]) {
            let end = run_end(s, pos + 1, CharClass::Digit);
            match int_token(s.subrange(pos + 1, end), true) {
                Some(t) => Some((t, end)),
                None => None,
            }
        } else {
            None
        }
    } else if is_word_start(c) {
        let end = run_end(s, pos, CharClass::Word);
        Some((word_token(s, pos, end), end))
    } else {
        None
    }
}

/// The tokens of `s` from `pos` on, or `None` where some character begins no token.
pub open spec fn tokens_from(s: Seq<char>, pos: int) -> Option<Seq<Token>>
    decreases s.len() - pos,
{
    let p = run_end(s, pos, CharClass::Space);
    if p < pos || p >= s.len() {
        Some(Seq::empty())
    } else {
        match token_at(s, p) {
            None => None,
            Some((t, q)) => if q <= p || q > s.len() {
                None
            } else {
                match tokens_from(s, q) {
                    None => None,
                    Some(rest) => Some(seq![t] + rest),
                }
            },
        }
    }
}

/// The tokens of `s`.
pub open spec fn tokens_of(s: Seq<char>) -> Option<Seq<Token>> {
    tokens_from(s, 0)
}

/// Whether the positions that `t` holds lie within a source of `len` characters.
pub open spec fn token_within(t: Token, len: int) -> bool {
    match t {
        Token::Ident { start, end } => start <= end <= len,
        Token::Text { start, end } => start <= end <= len,
        _ => true,
    }
}

fn in_class(class: CharClass, c: char) -> (r: bool)
    ensures
        r == class_has(class, c),
{
    match class {
        CharClass::Space => c == ' ' || c == '\t' || c == '\n' || c == '\r',
        CharClass::Digit => '0' <= c && c <= '9',
        CharClass::Word => ('a' <= c && c <= 'z') || ('A' <= c && c <= 'Z') || c == '_' || ('0'
            <= c && c <= '9') || c == '.',
        CharClass::Quoted => c != '"',
    }
}

/// Scans the run of `class` characters that begins at `pos`.
fn scan(s: &Vec<char>, pos: usize, class: CharClass) -> (end: usize)
    requires
        pos <= s@.len(),
    ensures
        pos <= end <= s@.len(),
        end == run_end(s@, pos as int, class),
        forall|i: int| pos <= i < end ==> class_has(class, #[trigger] s@[i]),
        end < s@.len() ==> !class_has(class, s@[end as int]),
{
    let mut i: usize = pos;
    while i < s.len() && in_class(class, s[i])
        invariant
            pos <= i <= s@.len(),
            run_end(s@, pos as int, class) == run_end(s@, i as int, class),
            forall|j: int| pos <= j < i ==> class_has(class, #[trigger] s@[j]),
        decreases s@.len() - i,
    {
        i += 1;
    }
    i
}

/// A longer sequence of digits writes no smaller a number than a prefix of it.
proof fn lemma_digits_prefix(digits: Seq<char>, n: int)
    requires
        0 <= n <= digits.len(),
        forall|i: int| 0 <= i < digits.len() ==> is_digit(#[trigger] digits[i]),
    ensures
        0 <= digits_value(digits.take(n)) <= digits_value(digits),
    decreases digits.len() - n,
{
    if n == digits.len() {
        assert(digits.take(n) =~= digits);
        lemma_digits_nonnegative(digits);
    } else {
        lemma_digits_prefix(digits, n + 1);
        assert(digits.take(n + 1).drop_last() =~= digits.take(n));
    }
}

proof fn lemma_digits_nonnegative(digits: Seq<char>)
    requires
        forall|i: int| 0 <= i < digits.len() ==> is_digit(#[trigger] digits[i]),
    ensures
        0 <= digits_value(digits),
    decreases digits.len(),
{
    if digits.len() > 0 {
        lemma_digits_nonnegative(digits.drop_last());
    }
}

/// Reads the integer that the digits at `start..end` write.
fn read_int(s: &Vec<char>, start: usize, end: usize, negative: bool) -> (r: Option<Token>)
    requires
        start <= end <= s@.len(),
        forall|i: int| start <= i < end ==> is_digit(#[trigger] s@[i]),
    ensures
        r == int_token(s@.subrange(start as int, end as int), negative),
{
    let limit: u64 = 9223372036854775808;
    let ghost digits = s@.subrange(start as int, end as int);
    let mut acc: u64 = 0;
    let mut i: usize = start;
    assert(digits.take(0) =~= Seq::<char>::empty());
    while i < end
        invariant
            start <= i <= end <= s@.len(),
            digits == s@.subrange(start as int, end as int),
            forall|j: int| 0 <= j < digits.len() ==> is_digit(#[trigger] digits[j]),
            acc == digits_value(digits.take(i - start)),
            acc <= limit,
            limit == 9223372036854775808,
        decreases end - i,
    {
        proof {
            assert(is_digit(digits[i - start]));
        }
        let d: u64 = (s[i] as u32 - '0' as u32) as u64;
        proof {
            assert(digits.take(i + 1 - start).drop_last() =~= digits.take(i - start));
            assert(digits.take(i + 1 - start).last() == s@[i as int]);
            lemma_digits_prefix(digits, i + 1 - start);
        }
        if acc > (limit - d) / 10 {
            return None;
        }
        acc = acc * 10 + d;
        i += 1;
    }
    assert(digits.take(end - start) =~= digits);
    if negative {
        if acc == limit {
            Some(Token::Int(i64::MIN))
        } else {
            Some(Token::Int(-(acc as i64)))
        }
    } else if acc == limit {
        None
    } else {
        Some(Token::Int(acc as i64))
    }
}

/// Whether the characters at `start..end` are the four given.
fn is_word4(s: &Vec<char>, start: usize, end: usize, a: char, b: char, c: char, d: char) -> (r:
    bool)
    requires
        start <= end <= s@.len(),
    ensures
        r == (s@.subrange(start as int, end as int) == seq![a, b, c, d]),
{
    let ghost w = s@.subrange(start as int, end as int);
    let ghost k = seq![a, b, c, d];
    if end - start != 4 {
        assert(w.len() != k.len());
        return false;
    }
    let r = s[start] == a && s[start + 1] == b && s[start + 2] == c && s[start + 3] == d;
    proof {
        if r {
            assert(w =~= k);
        } else {
            assert(w[0] != k[0] || w[1] != k[1] || w[2] != k[2] || w[3] != k[3]);
        }
    }
    r
}

/// Reads the word at `start..end`.
fn read_word(s: &Vec<char>, start: usize, end: usize) -> (t: Token)
    requires
        start <= end <= s@.len(),
    ensures
        t == word_token(s@, start as int, end as int),
        token_within(t, s@.len() as int),
{
    let ghost w = s@.subrange(start as int, end as int);
    let ghost f = seq!['f', 'a', 'l', 's', 'e'];
    if is_word4(s, start, end, 't', 'r', 'u', 'e') {
        Token::True
    } else if end - start == 5 && s[start] == 'f' && s[start + 1] == 'a' && s[start + 2] == 'l'
        && s[start + 3] == 's' && s[start + 4] == 'e' {
        assert(w =~= f);
        Token::False
    } else if is_word4(s, start, end, 'n', 'u', 'l', 'l') {
        Token::Null
    } else {
        proof {
            if w.len() == 5 {
                assert(w[0] != f[0] || w[1] != f[1] || w[2] != f[2] || w[3] != f[3] || w[4]
                    != f[4]);
            }
        }
        Token::Ident { start, end }
    }
}

/// Reads the token that begins at `pos`.
fn read_token(s: &Vec<char>, pos: usize) -> (r: Option<(Token, usize)>)
    requires
        pos < s@.len(),
    ensures
        match r {
            Some((t, end)) => token_at(s@, pos as int) == Some((t, end as int)) && pos < end
                <= s@.len() && token_within(t, s@.len() as int),
            None => token_at(s@, pos as int) is None,
        },
{
    let n = s.len();
    let c = s[pos];
    let followed_by_eq = pos + 1 < n && s[pos + 1] == '=';
    if c == '(' {
        Some((Token::LParen, pos + 1))
    } else if c == ')' {
        Some((Token::RParen, pos + 1))
    } else if c == '!' {
        if followed_by_eq {
            Some((Token::Ne, pos + 2))
        } else {
            Some((Token::Not, pos + 1))
        }
    } else if c == '<' {
        if followed_by_eq {
            Some((Token::Le, pos + 2))
        } else {
            Some((Token::Lt, pos + 1))
        }
    } else if c == '>' {
        if followed_by_eq {
            Some((Token::Ge, pos + 2))
        } else {
            Some((Token::Gt, pos + 1))
        }
    } else if c == '=' {
        if followed_by_eq {
            Some((Token::Eq, pos + 2))
        } else {
            None
        }
    } else if c == '&' {
        if pos + 1 < s.len() && s[pos + 1] == '&' {
            Some((Token::And, pos + 2))
        } else {
            None
        }
    } else if c == '|' {
        if pos + 1 < s.len() && s[pos + 1] == '|' {
            Some((Token::Or, pos + 2))
        } else {
            None
        }
    } else if c == '"' {
        let close = scan(s, pos + 1, CharClass::Quoted);
        if close < s.len() {
            Some((Token::Text { start: pos + 1, end: close }, close + 1))
        } else {
            None
        }
    } else if '0' <= c && c <= '9' {
        let end = scan(s, pos, CharClass::Digit);
        match read_int(s, pos, end, false) {
            Some(t) => Some((t, end)),
            None => None,
        }
    } else if c == '-' {
        if pos + 1 < s.len() && '0' <= s[pos + 1] && s[pos + 1] <= '9' {
            let end = scan(s, pos + 1, CharClass::Digit);
            match read_int(s, pos + 1, end, true) {
                Some(t) => Some((t, end)),
                None => None,
            }
        } else {
            None
        }
    } else if ('a' <= c && c <= 'z') || ('A' <= c && c <= 'Z') || c == '_' {
        let end = scan(s, pos, CharClass::Word);
        Some((read_word(s, pos, end), end))
    } else {
        None
    }
}

/// The characters of `text`, in order.
pub fn chars_of(text: &str) -> (v: Vec<char>)
    ensures
        v@ == text@,
{
    let mut v: Vec<char> = Vec::new();
    for c in it: text.chars()
        invariant
            v@ == it.seq().take(it.index()),
            it.seq() == text@,
    {
        v.push(c);
    }
    v
}

/// Splits `s` into tokens.
pub fn tokenize(s: &Vec<char>) -> (r: Option<Vec<Token>>)
    ensures
        match r {
            Some(toks) => tokens_of(s@) == Some(toks@) && forall|i: int|
                0 <= i < toks@.len() ==> token_within(#[trigger] toks@[i], s@.len() as int),
            None => tokens_of(s@) is None,
        },
{
    let mut toks: Vec<Token> = Vec::new();
    let mut pos: usize = 0;
    loop
        invariant
            pos <= s@.len(),
            forall|i: int|
                0 <= i < toks@.len() ==> token_within(#[trigger] toks@[i], s@.len() as int),
            tokens_of(s@) == match tokens_from(s@, pos as int) {
                Some(rest) => Some(toks@ + rest),
                None => None,
            },
        decreases s@.len() - pos,
    {
        let p = scan(s, pos, CharClass::Space);
        if p >= s.len() {
            assert(toks@ + Seq::<Token>::empty() =~= toks@);
            return Some(toks);
        }
        match read_token(s, p) {
            None => {
                return None;
            },
            Some((t, q)) => {
                proof {
                    let ghost before = toks@;
                    if tokens_from(s@, q as int) is Some {
                        let rest = tokens_from(s@, q as int)->0;
                        assert(before.push(t) + rest =~= before + (seq![t] + rest));
                    }
                }
                toks.push(t);
                pos = q;
            },
        }
    }
}

} // verus!
