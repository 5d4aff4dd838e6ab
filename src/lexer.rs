use vstd::prelude::*;

use crate::bi_operator::BiOperator;

verus! {

/// The kinds of token of the language.
#[derive(Debug, Clone, Copy, PartialEq, Eq, Structural)]
pub enum TokenKind {
    Number,
    Identifier,
    Let,
    If,
    Else,
    While,
    True,
    False,
    Operator(BiOperator),
    Assign,
    Semicolon,
    Comma,
    OpenParen,
    CloseParen,
    OpenBrace,
    CloseBrace,
}

/// A token and the characters `start..end` of the source that it spans.
#[derive(Debug, Clone, Copy, PartialEq, Eq, Structural)]
pub struct Token {
    pub kind: TokenKind,
    pub start: usize,
    pub end: usize,
}

pub open spec fn is_digit(c: char) -> bool {
    '0' <= c && c <= '9'
}

pub open spec fn is_word_start(c: char) -> bool {
    ('a' <= c && c <= 'z') || ('A' <= c && c <= 'Z') || c == '_'
}

pub open spec fn is_word_char(c: char) -> bool {
    is_word_start(c) || is_digit(c)
}

pub open spec fn is_space(c: char) -> bool {
    c == ' ' || c == '\t' || c == '\n' || c == '\r'
}

/// The end of the run of digits that starts at `i`.
pub open spec fn digits_end(s: Seq<char>, i: int) -> int
    decreases s.len() - i,
{
    if 0 <= i < s.len() && is_digit(s[i]) {
        digits_end(s, i + 1)
    } else {
        i
    }
}

/// The end of the run of word characters that starts at `i`.
pub open spec fn word_end(s: Seq<char>, i: int) -> int
    decreases s.len() - i,
{
    if 0 <= i < s.len() && is_word_char(s[i]) {
        word_end(s, i + 1)
    } else {
        i
    }
}

/// The end of the number literal that starts at `i`: digits, and then a
/// `.` and digits if a digit follows the `.`.
pub open spec fn number_end(s: Seq<char>, i: int) -> int {
    let d = digits_end(s, i);
    if d + 1 < s.len() && s[d] == '.' && is_digit(s[d + 1]) {
        digits_end(s, d + 1)
    } else {
        d
    }
}

/// The kind of token that the word `w` is.
pub open spec fn keyword_kind(w: Seq<char>) -> TokenKind {
    if w == seq!['l', 'e', 't'] {
        TokenKind::Let
    } else if w == seq!['i', 'f'] {
        TokenKind::If
    } else if w == seq!['e', 'l', 's', 'e'] {
        TokenKind::Else
    } else if w == seq!['w', 'h', 'i', 'l', 'e'] {
        TokenKind::While
    } else if w == seq!['t', 'r', 'u', 'e'] {
        TokenKind::True
    } else if w == seq!['f', 'a', 'l', 's', 'e'] {
        TokenKind::False
    } else {
        TokenKind::Identifier
    }
}

/// The operator or punctuation token at `i`, and its length; two-character
/// operators are preferred.
pub open spec fn symbol(s: Seq<char>, i: int) -> Option<(TokenKind, int)> {
    let c = s[i];
    let next = if i < s.len() - 1 {
        s[i + 1]
    } else {
        ' '
    };
    if c == '&' && next == '&' {
        Some((TokenKind::Operator(BiOperator::Conjuction), 2))
    } else if c == '|' && next == '|' {
        Some((TokenKind::Operator(BiOperator::Disjunction), 2))
    } else if c == '<' && next == '=' {
        Some((TokenKind::Operator(BiOperator::LessThanOrEqual), 2))
    } else if c == '>' && next == '=' {
        Some((TokenKind::Operator(BiOperator::GreaterThanOrEqual), 2))
    } else if c == '!' && next == '=' {
        Some((TokenKind::Operator(BiOperator::NotEqual), 2))
    } else if c == '<' {
        Some((TokenKind::Operator(BiOperator::LessThan), 1))
    } else if c == '>' {
        Some((TokenKind::Operator(BiOperator::GreaterThan), 1))
    } else if c == '+' {
        Some((TokenKind::Operator(BiOperator::Add), 1))
    } else if c == '-' {
        Some((TokenKind::Operator(BiOperator::Subtract), 1))
    } else if c == '*' {
        Some((TokenKind::Operator(BiOperator::Multiply), 1))
    } else if c == '/' {
        Some((TokenKind::Operator(BiOperator::Divide), 1))
    } else if c == '^' {
        Some((TokenKind::Operator(BiOperator::Power), 1))
    } else if c == '=' {
        Some((TokenKind::Assign, 1))
    } else if c == ';' {
        Some((TokenKind::Semicolon, 1))
    } else if c == ',' {
        Some((TokenKind::Comma, 1))
    } else if c == '(' {
        Some((TokenKind::OpenParen, 1))
    } else if c == ')' {
        Some((TokenKind::CloseParen, 1))
    } else if c == '{' {
        Some((TokenKind::OpenBrace, 1))
    } else if c == '}' {
        Some((TokenKind::CloseBrace, 1))
    } else {
        None
    }
}

/// `t` followed by the tokens of `rest`, or the failure of `rest`.
pub open spec fn prepend(t: Token, rest: Result<Seq<Token>, int>) -> Result<Seq<Token>, int> {
    match rest {
        Ok(ts) => Ok(seq![t] + ts),
        Err(p) => Err(p),
    }
}

/// The tokens of `s` from `i` on, or the position of the first character
/// that starts no token.
pub open spec fn lex_from(s: Seq<char>, i: int) -> Result<Seq<Token>, int>
    decreases s.len() - i,
{
    if i < 0 || i >= s.len() {
        Ok(Seq::empty())
    } else if is_space(s[i]) {
        lex_from(s, i + 1)
    } else if is_digit(s[i]) {
        let e = number_end(s, i);
        proof {
            lemma_number_end(s, i);
        }
        prepend(Token { kind: TokenKind::Number, start: i as usize, end: e as usize }, lex_from(s, e))
    } else if is_word_start(s[i]) {
        let e = word_end(s, i);
        proof {
            lemma_word_end(s, i + 1);
        }
        prepend(
            Token { kind: keyword_kind(s.subrange(i, e)), start: i as usize, end: e as usize },
            lex_from(s, e),
        )
    } else {
        match symbol(s, i) {
            Some((kind, n)) => prepend(
                Token { kind, start: i as usize, end: (i + n) as usize },
                lex_from(s, i + n),
            ),
            None => Err(i),
        }
    }
}

/// The tokens of the whole source, or the position of the first character
/// that starts no token.
pub open spec fn lex(s: Seq<char>) -> Result<Seq<Token>, int> {
    lex_from(s, 0)
}

pub proof fn lemma_digits_end(s: Seq<char>, i: int)
    requires
        0 <= i <= s.len(),
    ensures
        i <= digits_end(s, i) <= s.len(),
    decreases s.len() - i,
{
    if i < s.len() && is_digit(s[i]) {
        lemma_digits_end(s, i + 1);
    }
}

pub proof fn lemma_word_end(s: Seq<char>, i: int)
    requires
        0 <= i <= s.len(),
    ensures
        i <= word_end(s, i) <= s.len(),
    decreases s.len() - i,
{
    if i < s.len() && is_word_char(s[i]) {
        lemma_word_end(s, i + 1);
    }
}

pub proof fn lemma_number_end(s: Seq<char>, i: int)
    requires
        0 <= i < s.len(),
        is_digit(s[i]),
    ensures
        i < number_end(s, i) <= s.len(),
{
    lemma_digits_end(s, i + 1);
    let d = digits_end(s, i);
    if d + 1 < s.len() && s[d] == '.' && is_digit(s[d + 1]) {
        lemma_digits_end(s, d + 1);
    }
}

/// What the tokens read so far and the tokens of the rest make together.
spec fn joined(done: Seq<Token>, rest: Result<Seq<Token>, int>) -> Result<Seq<Token>, int> {
    match rest {
        Ok(ts) => Ok(done + ts),
        Err(p) => Err(p),
    }
}

proof fn lemma_joined_step(done: Seq<Token>, t: Token, rest: Result<Seq<Token>, int>)
    ensures
        joined(done, prepend(t, rest)) == joined(done.push(t), rest),
{
    if let Ok(ts) = rest {
        assert(done + (seq![t] + ts) =~= done.push(t) + ts);
    }
}

fn digit(c: char) -> (r: bool)
    ensures
        r == is_digit(c),
{
    '0' <= c && c <= '9'
}

fn word_start(c: char) -> (r: bool)
    ensures
        r == is_word_start(c),
{
    ('a' <= c && c <= 'z') || ('A' <= c && c <= 'Z') || c == '_'
}

fn scan_digits(s: &Vec<char>, i: usize) -> (e: usize)
    requires
        i <= s@.len(),
    ensures
        e == digits_end(s@, i as int),
        i <= e <= s@.len(),
{
    let mut j = i;
    while j < s.len() && digit(s[j])
        invariant
            i <= j <= s@.len(),
            digits_end(s@, i as int) == digits_end(s@, j as int),
        decreases s@.len() - j,
    {
        j = j + 1;
    }
    j
}

fn scan_word(s: &Vec<char>, i: usize) -> (e: usize)
    requires
        i <= s@.len(),
    ensures
        e == word_end(s@, i as int),
        i <= e <= s@.len(),
{
    let mut j = i;
    while j < s.len() && (word_start(s[j]) || digit(s[j]))
        invariant
            i <= j <= s@.len(),
            word_end(s@, i as int) == word_end(s@, j as int),
        decreases s@.len() - j,
    {
        j = j + 1;
    }
    j
}

fn scan_number(s: &Vec<char>, i: usize) -> (e: usize)
    requires
        i < s@.len(),
        is_digit(s@[i as int]),
    ensures
        e == number_end(s@, i as int),
        i < e <= s@.len(),
{
    proof {
        lemma_number_end(s@, i as int);
    }
    let d = scan_digits(s, i);
    if s.len() - d > 1 && s[d] == '.' && digit(s[d + 1]) {
        scan_digits(s, d + 1)
    } else {
        d
    }
}

/// Whether the characters `start..end` of `s` spell `word`.
fn spells(s: &Vec<char>, start: usize, end: usize, word: &Vec<char>) -> (r: bool)
    requires
        start <= end <= s@.len(),
    ensures
        r == (s@.subrange(start as int, end as int) == word@),
{
    if end - start != word.len() {
        return false;
    }
    let mut k: usize = 0;
    while k < word.len()
        invariant
            k <= word@.len(),
            end - start == word@.len(),
            start <= end <= s@.len(),
            forall|j: int| 0 <= j < k ==> s@[start + j] == word@[j],
        decreases word@.len() - k,
    {
        if s[start + k] != word[k] {
            assert(s@.subrange(start as int, end as int)[k as int] != word@[k as int]);
            return false;
        }
        k = k + 1;
    }
    assert(s@.subrange(start as int, end as int) =~= word@);
    true
}

fn word_kind(s: &Vec<char>, start: usize, end: usize) -> (k: TokenKind)
    requires
        start <= end <= s@.len(),
    ensures
        k == keyword_kind(s@.subrange(start as int, end as int)),
{
    if spells(s, start, end, &vec!['l', 'e', 't']) {
        TokenKind::Let
    } else if spells(s, start, end, &vec!['i', 'f']) {
        TokenKind::If
    } else if spells(s, start, end, &vec!['e', 'l', 's', 'e']) {
        TokenKind::Else
    } else if spells(s, start, end, &vec!['w', 'h', 'i', 'l', 'e']) {
        TokenKind::While
    } else if spells(s, start, end, &vec!['t', 'r', 'u', 'e']) {
        TokenKind::True
    } else if spells(s, start, end, &vec!['f', 'a', 'l', 's', 'e']) {
        TokenKind::False
    } else {
        TokenKind::Identifier
    }
}

/// The operator table: the token that the characters at `i` start, if
/// they are an operator or punctuation.
fn symbol_at(s: &Vec<char>, i: usize) -> (r: Option<(TokenKind, usize)>)
    requires
        i < s@.len(),
    ensures
        match (r, symbol(s@, i as int)) {
            (Some((k, n)), Some((sk, sn))) => k == sk && n == sn,
            (None, None) => true,
            _ => false,
        },
        r matches Some((_, n)) ==> 1 <= n && i + n <= s@.len(),
{
    let c = s[i];
    let next = if i < s.len() - 1 {
        s[i + 1]
    } else {
        ' '
    };
    if c == '&' && next == '&' {
        Some((TokenKind::Operator(BiOperator::Conjuction), 2))
    } else if c == '|' && next == '|' {
        Some((TokenKind::Operator(BiOperator::Disjunction), 2))
    } else if c == '<' && next == '=' {
        Some((TokenKind::Operator(BiOperator::LessThanOrEqual), 2))
    } else if c == '>' && next == '=' {
        Some((TokenKind::Operator(BiOperator::GreaterThanOrEqual), 2))
    } else if c == '!' && next == '=' {
        Some((TokenKind::Operator(BiOperator::NotEqual), 2))
    } else if c == '<' {
        Some((TokenKind::Operator(BiOperator::LessThan), 1))
    } else if c == '>' {
        Some((TokenKind::Operator(BiOperator::GreaterThan), 1))
    } else if c == '+' {
        Some((TokenKind::Operator(BiOperator::Add), 1))
    } else if c == '-' {
        Some((TokenKind::Operator(BiOperator::Subtract), 1))
    } else if c == '*' {
        Some((TokenKind::Operator(BiOperator::Multiply), 1))
    } else if c == '/' {
        Some((TokenKind::Operator(BiOperator::Divide), 1))
    } else if c == '^' {
        Some((TokenKind::Operator(BiOperator::Power), 1))
    } else if c == '=' {
        Some((TokenKind::Assign, 1))
    } else if c == ';' {
        Some((TokenKind::Semicolon, 1))
    } else if c == ',' {
        Some((TokenKind::Comma, 1))
    } else if c == '(' {
        Some((TokenKind::OpenParen, 1))
    } else if c == ')' {
        Some((TokenKind::CloseParen, 1))
    } else if c == '{' {
        Some((TokenKind::OpenBrace, 1))
    } else if c == '}' {
        Some((TokenKind::CloseBrace, 1))
    } else {
        None
    }
}

/// Splits the source `s` into tokens, or gives the position of the first
/// character that starts no token.
pub fn tokenize(s: &Vec<char>) -> (r: Result<Vec<Token>, usize>)
    ensures
        match (r, lex(s@)) {
            (Ok(ts), Ok(m)) => ts@ == m,
            (Err(p), Err(q)) => p as int == q,
            _ => false,
        },
{
    let mut tokens: Vec<Token> = Vec::new();
    let mut i: usize = 0;
    while i < s.len()
        invariant
            i <= s@.len(),
            lex(s@) == joined(tokens@, lex_from(s@, i as int)),
        decreases s@.len() - i,
    {
        let c = s[i];
        if c == ' ' || c == '\t' || c == '\n' || c == '\r' {
            i = i + 1;
        } else if digit(c) {
            let e = scan_number(s, i);
            let t = Token { kind: TokenKind::Number, start: i, end: e };
            proof {
                lemma_joined_step(tokens@, t, lex_from(s@, e as int));
            }
            tokens.push(t);
            i = e;
        } else if word_start(c) {
            let e = scan_word(s, i);
            proof {
                lemma_word_end(s@, i + 1);
            }
            assert(e > i);
            let t = Token { kind: word_kind(s, i, e), start: i, end: e };
            proof {
                lemma_joined_step(tokens@, t, lex_from(s@, e as int));
            }
            tokens.push(t);
            i = e;
        } else {
            match symbol_at(s, i) {
                Some((kind, n)) => {
                    let t = Token { kind, start: i, end: i + n };
                    proof {
                        lemma_joined_step(tokens@, t, lex_from(s@, i + n));
                    }
                    tokens.push(t);
                    i = i + n;
                },
                None => {
                    return Err(i);
                },
            }
        }
    }
    assert(tokens@ + Seq::<Token>::empty() =~= tokens@);
    Ok(tokens)
}

} // verus!

verus! {

/// Every token spans characters of `s`.
pub open spec fn within(s: Seq<char>, t: Seq<Token>) -> bool {
    forall|k: int| 0 <= k < t.len() ==> t[k].start <= t[k].end && t[k].end <= s.len()
}

proof fn lemma_prepend_within(s: Seq<char>, t: Token, rest: Result<Seq<Token>, int>)
    requires
        t.start <= t.end <= s.len(),
        rest matches Ok(r) ==> within(s, r),
    ensures
        prepend(t, rest) matches Ok(ts) ==> within(s, ts),
{
    if let Ok(r) = rest {
        let ts = seq![t] + r;
        assert forall|k: int| 0 <= k < ts.len() implies ts[k].start <= ts[k].end && ts[k].end
            <= s.len() by {
            if k > 0 {
                assert(ts[k] == r[k - 1]);
            }
        }
    }
}

pub proof fn lemma_lex_within(s: Seq<char>, i: int)
    requires
        0 <= i,
        s.len() <= usize::MAX,
    ensures
        lex_from(s, i) matches Ok(ts) ==> within(s, ts),
    decreases s.len() - i,
{
    if 0 <= i < s.len() {
        if is_space(s[i]) {
            lemma_lex_within(s, i + 1);
        } else if is_digit(s[i]) {
            let e = number_end(s, i);
            lemma_number_end(s, i);
            lemma_lex_within(s, e);
            lemma_prepend_within(
                s,
                Token { kind: TokenKind::Number, start: i as usize, end: e as usize },
                lex_from(s, e),
            );
        } else if is_word_start(s[i]) {
            let e = word_end(s, i);
            lemma_word_end(s, i + 1);
            lemma_lex_within(s, e);
            lemma_prepend_within(
                s,
                Token { kind: keyword_kind(s.subrange(i, e)), start: i as usize, end: e as usize },
                lex_from(s, e),
            );
        } else if let Some((kind, n)) = symbol(s, i) {
            assert(1 <= n && i + n <= s.len());
            lemma_lex_within(s, i + n);
            lemma_prepend_within(
                s,
                Token { kind, start: i as usize, end: (i + n) as usize },
                lex_from(s, i + n),
            );
        }
    }
}

} // verus!
