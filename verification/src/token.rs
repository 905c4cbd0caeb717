//! The lexical layer: source text as a sequence of tokens, with blanks and
//! comments left out.

use vstd::prelude::*;

verus! {

/// The kinds of token.
#[derive(Clone, Copy, Debug, PartialEq, Eq, Structural)]
pub enum TokenKind {
    /// A letter or underscore followed by letters, digits and underscores.
    Identifier,
    /// A run of digits.
    Number,
    /// `,`
    Comma,
    /// `(`
    OpenParen,
    /// `)`
    CloseParen,
    /// `[`
    OpenBracket,
    /// `]`
    CloseBracket,
    /// `=`
    Equals,
    /// A line feed.
    LineBreak,
    /// The end of the text.
    EndOfInput,
    /// A character with which no token begins.
    Unknown,
}

/// A token of a source text: its kind and the range of characters it covers.
#[derive(Clone, Copy, Debug, PartialEq, Eq, Structural)]
pub struct Token {
    pub kind: TokenKind,
    /// Index of the first character.
    pub start: usize,
    /// Index behind the last character.
    pub end: usize,
}

/// A token as a mathematical value: its kind, its text and where it begins.
pub ghost struct Lexeme {
    pub kind: TokenKind,
    pub text: Seq<char>,
    pub start: int,
}

/// What a token stands for in the source `src`.
pub open spec fn lexeme_of(src: Seq<char>, token: Token) -> Lexeme {
    Lexeme {
        kind: token.kind,
        text: src.subrange(token.start as int, token.end as int),
        start: token.start as int,
    }
}

/// What a sequence of tokens stands for in the source `src`.
pub open spec fn lexemes_of(src: Seq<char>, tokens: Seq<Token>) -> Seq<Lexeme> {
    Seq::new(tokens.len(), |i: int| lexeme_of(src, tokens[i]))
}

/// Blank, tab or carriage return.
pub open spec fn is_blank(c: char) -> bool {
    c == ' ' || c == '\t' || c == '\r'
}

/// An ASCII digit.
pub open spec fn is_digit(c: char) -> bool {
    '0' <= c <= '9'
}

/// An ASCII letter or the underscore.
pub open spec fn is_ident_start(c: char) -> bool {
    ('a' <= c <= 'z') || ('A' <= c <= 'Z') || c == '_'
}

/// A character of which identifiers are made.
pub open spec fn is_word(c: char) -> bool {
    is_ident_start(c) || is_digit(c)
}

/// The first index from `pos` on at which no word character stands.
pub open spec fn word_end(s: Seq<char>, pos: int) -> int
    decreases s.len() - pos,
{
    if 0 <= pos < s.len() && is_word(s[pos]) {
        word_end(s, pos + 1)
    } else {
        pos
    }
}

/// The first index from `pos` on at which no digit stands.
pub open spec fn digits_end(s: Seq<char>, pos: int) -> int
    decreases s.len() - pos,
{
    if 0 <= pos < s.len() && is_digit(s[pos]) {
        digits_end(s, pos + 1)
    } else {
        pos
    }
}

/// The index of the first line feed from `pos` on, or the length of the text.
pub open spec fn line_end(s: Seq<char>, pos: int) -> int
    decreases s.len() - pos,
{
    if 0 <= pos < s.len() && s[pos] != '\n' {
        line_end(s, pos + 1)
    } else {
        pos
    }
}

/// The index behind the first `*/` that begins at `pos` or later.
pub open spec fn comment_close(s: Seq<char>, pos: int) -> Option<int>
    decreases s.len() - pos,
{
    if pos < 0 || pos + 1 >= s.len() {
        None
    } else if s[pos] == '*' && s[pos + 1] == '/' {
        Some(pos + 2)
    } else {
        comment_close(s, pos + 1)
    }
}

/// Where the blank or comment that begins at `pos` ends; `pos` itself where
/// none begins there. A line comment runs from `//` up to the line feed, a
/// block comment from `/*` to the first `*/`; a `/*` that is never closed
/// begins no comment.
pub open spec fn trivia_end(s: Seq<char>, pos: int) -> int {
    if !(0 <= pos < s.len()) {
        pos
    } else if is_blank(s[pos]) {
        pos + 1
    } else if s[pos] == '/' && pos + 1 < s.len() && s[pos + 1] == '/' {
        line_end(s, pos + 2)
    } else if s[pos] == '/' && pos + 1 < s.len() && s[pos + 1] == '*' {
        match comment_close(s, pos + 2) {
            Some(end) => end,
            None => pos,
        }
    } else {
        pos
    }
}

/// The tokens lie within `src`, and the last of them is of kind `EndOfInput`.
pub open spec fn well_formed(src: Seq<char>, tokens: Seq<Token>) -> bool {
    &&& tokens.len() > 0
    &&& tokens.last().kind == TokenKind::EndOfInput
    &&& forall|i: int|
        0 <= i < tokens.len() ==> (#[trigger] tokens[i]).start <= tokens[i].end <= src.len()
}

/// The kind of the token that begins with the character `c`.
pub open spec fn kind_of(c: char) -> TokenKind {
    if is_ident_start(c) {
        TokenKind::Identifier
    } else if is_digit(c) {
        TokenKind::Number
    } else if c == ',' {
        TokenKind::Comma
    } else if c == '(' {
        TokenKind::OpenParen
    } else if c == ')' {
        TokenKind::CloseParen
    } else if c == '[' {
        TokenKind::OpenBracket
    } else if c == ']' {
        TokenKind::CloseBracket
    } else if c == '=' {
        TokenKind::Equals
    } else if c == '\n' {
        TokenKind::LineBreak
    } else {
        TokenKind::Unknown
    }
}

/// Where the token that begins at `pos` ends: an identifier takes every word
/// character that follows, a number every digit, any other token is one
/// character.
pub open spec fn token_end(s: Seq<char>, pos: int) -> int {
    match kind_of(s[pos]) {
        TokenKind::Identifier => word_end(s, pos + 1),
        TokenKind::Number => digits_end(s, pos + 1),
        _ => pos + 1,
    }
}

/// The token that ends every token sequence.
pub open spec fn end_lexeme(s: Seq<char>) -> Lexeme {
    Lexeme { kind: TokenKind::EndOfInput, text: Seq::empty(), start: s.len() as int }
}

/// The tokens of `s` from `pos` on. Blanks and comments are passed over; the
/// sequence ends with the one token of kind `EndOfInput`.
pub open spec fn lex_from(s: Seq<char>, pos: int) -> Seq<Lexeme>
    decreases s.len() - pos,
{
    if !(0 <= pos < s.len()) {
        seq![end_lexeme(s)]
    } else if trivia_end(s, pos) > pos {
        proof {
            lemma_trivia_end_bounds(s, pos);
        }
        lex_from(s, trivia_end(s, pos))
    } else {
        proof {
            lemma_token_end_bounds(s, pos);
        }
        seq![
            Lexeme {
                kind: kind_of(s[pos]),
                text: s.subrange(pos, token_end(s, pos)),
                start: pos,
            },
        ] + lex_from(s, token_end(s, pos))
    }
}

/// The tokens of a text.
pub open spec fn lex(s: Seq<char>) -> Seq<Lexeme> {
    lex_from(s, 0)
}

pub proof fn lemma_word_end_bounds(s: Seq<char>, pos: int)
    requires
        0 <= pos <= s.len(),
    ensures
        pos <= word_end(s, pos) <= s.len(),
    decreases s.len() - pos,
{
    if pos < s.len() && is_word(s[pos]) {
        lemma_word_end_bounds(s, pos + 1);
    }
}

pub proof fn lemma_digits_end_bounds(s: Seq<char>, pos: int)
    requires
        0 <= pos <= s.len(),
    ensures
        pos <= digits_end(s, pos) <= s.len(),
    decreases s.len() - pos,
{
    if pos < s.len() && is_digit(s[pos]) {
        lemma_digits_end_bounds(s, pos + 1);
    }
}

pub proof fn lemma_line_end_bounds(s: Seq<char>, pos: int)
    requires
        0 <= pos <= s.len(),
    ensures
        pos <= line_end(s, pos) <= s.len(),
    decreases s.len() - pos,
{
    if pos < s.len() && s[pos] != '\n' {
        lemma_line_end_bounds(s, pos + 1);
    }
}

pub proof fn lemma_comment_close_bounds(s: Seq<char>, pos: int)
    requires
        0 <= pos <= s.len(),
    ensures
        comment_close(s, pos) matches Some(end) ==> pos + 2 <= end <= s.len(),
    decreases s.len() - pos,
{
    if pos + 1 < s.len() && !(s[pos] == '*' && s[pos + 1] == '/') {
        lemma_comment_close_bounds(s, pos + 1);
    }
}

/// A blank or comment ends within the text.
pub proof fn lemma_trivia_end_bounds(s: Seq<char>, pos: int)
    requires
        0 <= pos < s.len(),
    ensures
        pos <= trivia_end(s, pos) <= s.len(),
{
    if s[pos] == '/' && pos + 1 < s.len() {
        lemma_line_end_bounds(s, pos + 2);
        lemma_comment_close_bounds(s, pos + 2);
    }
}

/// A token has at least one character and ends within the text.
pub proof fn lemma_token_end_bounds(s: Seq<char>, pos: int)
    requires
        0 <= pos < s.len(),
    ensures
        pos < token_end(s, pos) <= s.len(),
{
    lemma_word_end_bounds(s, pos + 1);
    lemma_digits_end_bounds(s, pos + 1);
}

/// A token sequence is not empty, and its last token is of kind `EndOfInput`.
pub proof fn lemma_lex_ends(s: Seq<char>, pos: int)
    ensures
        lex_from(s, pos).len() >= 1,
        lex_from(s, pos).last() == end_lexeme(s),
    decreases s.len() - pos,
{
    if !(0 <= pos < s.len()) {
    } else if trivia_end(s, pos) > pos {
        lemma_trivia_end_bounds(s, pos);
        lemma_lex_ends(s, trivia_end(s, pos));
    } else {
        lemma_token_end_bounds(s, pos);
        lemma_lex_ends(s, token_end(s, pos));
    }
}

fn char_is_blank(c: char) -> (b: bool)
    ensures
        b == is_blank(c),
{
    c == ' ' || c == '\t' || c == '\r'
}

fn char_is_digit(c: char) -> (b: bool)
    ensures
        b == is_digit(c),
{
    '0' <= c && c <= '9'
}

fn char_is_ident_start(c: char) -> (b: bool)
    ensures
        b == is_ident_start(c),
{
    ('a' <= c && c <= 'z') || ('A' <= c && c <= 'Z') || c == '_'
}

fn char_kind(c: char) -> (kind: TokenKind)
    ensures
        kind == kind_of(c),
{
    if char_is_ident_start(c) {
        TokenKind::Identifier
    } else if char_is_digit(c) {
        TokenKind::Number
    } else if c == ',' {
        TokenKind::Comma
    } else if c == '(' {
        TokenKind::OpenParen
    } else if c == ')' {
        TokenKind::CloseParen
    } else if c == '[' {
        TokenKind::OpenBracket
    } else if c == ']' {
        TokenKind::CloseBracket
    } else if c == '=' {
        TokenKind::Equals
    } else if c == '\n' {
        TokenKind::LineBreak
    } else {
        TokenKind::Unknown
    }
}

fn scan_word(chars: &Vec<char>, pos: usize) -> (end: usize)
    requires
        pos <= chars.len(),
    ensures
        end == word_end(chars@, pos as int),
        pos <= end <= chars.len(),
{
    let mut i: usize = pos;
    while i < chars.len() && (char_is_ident_start(chars[i]) || char_is_digit(chars[i]))
        invariant
            pos <= i <= chars.len(),
            word_end(chars@, i as int) == word_end(chars@, pos as int),
        decreases chars.len() - i,
    {
        i += 1;
    }
    i
}

fn scan_digits(chars: &Vec<char>, pos: usize) -> (end: usize)
    requires
        pos <= chars.len(),
    ensures
        end == digits_end(chars@, pos as int),
        pos <= end <= chars.len(),
{
    let mut i: usize = pos;
    while i < chars.len() && char_is_digit(chars[i])
        invariant
            pos <= i <= chars.len(),
            digits_end(chars@, i as int) == digits_end(chars@, pos as int),
        decreases chars.len() - i,
    {
        i += 1;
    }
    i
}

fn scan_line(chars: &Vec<char>, pos: usize) -> (end: usize)
    requires
        pos <= chars.len(),
    ensures
        end == line_end(chars@, pos as int),
        pos <= end <= chars.len(),
{
    let mut i: usize = pos;
    while i < chars.len() && chars[i] != '\n'
        invariant
            pos <= i <= chars.len(),
            line_end(chars@, i as int) == line_end(chars@, pos as int),
        decreases chars.len() - i,
    {
        i += 1;
    }
    i
}

fn scan_comment_close(chars: &Vec<char>, pos: usize) -> (end: Option<usize>)
    requires
        pos <= chars.len(),
    ensures
        match end {
            Some(e) => comment_close(chars@, pos as int) == Some(e as int) && pos + 2 <= e
                <= chars.len(),
            None => comment_close(chars@, pos as int) is None,
        },
{
    let mut i: usize = pos;
    while chars.len() - i >= 2
        invariant
            pos <= i <= chars.len(),
            comment_close(chars@, i as int) == comment_close(chars@, pos as int),
        decreases chars.len() - i,
    {
        if chars[i] == '*' && chars[i + 1] == '/' {
            return Some(i + 2);
        }
        i += 1;
    }
    None
}

/// Where the blank or comment that begins at `pos` ends.
fn scan_trivia(chars: &Vec<char>, pos: usize) -> (end: usize)
    requires
        pos < chars.len(),
    ensures
        end == trivia_end(chars@, pos as int),
        pos <= end <= chars.len(),
{
    let c = chars[pos];
    if char_is_blank(c) {
        pos + 1
    } else if c == '/' && pos + 1 < chars.len() && chars[pos + 1] == '/' {
        scan_line(chars, pos + 2)
    } else if c == '/' && pos + 1 < chars.len() && chars[pos + 1] == '*' {
        match scan_comment_close(chars, pos + 2) {
            Some(end) => end,
            None => pos,
        }
    } else {
        pos
    }
}

/// Splits a text into its tokens.
pub fn tokenize(chars: &Vec<char>) -> (tokens: Vec<Token>)
    ensures
        lexemes_of(chars@, tokens@) == lex(chars@),
        well_formed(chars@, tokens@),
{
    let ghost src = chars@;
    let mut tokens: Vec<Token> = Vec::new();
    let mut pos: usize = 0;
    assert(lexemes_of(src, tokens@) + lex_from(src, 0) =~= lex(src));
    while pos < chars.len()
        invariant
            pos <= chars.len(),
            src == chars@,
            lexemes_of(src, tokens@) + lex_from(src, pos as int) == lex(src),
            forall|i: int|
                0 <= i < tokens.len() ==> (#[trigger] tokens[i]).start <= tokens[i].end
                    <= chars.len(),
        decreases chars.len() - pos,
    {
        let after = scan_trivia(chars, pos);
        if after > pos {
            pos = after;
        } else {
            let kind = char_kind(chars[pos]);
            let end = match kind {
                TokenKind::Identifier => scan_word(chars, pos + 1),
                TokenKind::Number => scan_digits(chars, pos + 1),
                _ => pos + 1,
            };
            let ghost before = tokens@;
            let token = Token { kind, start: pos, end };
            tokens.push(token);
            assert(lexemes_of(src, tokens@) =~= lexemes_of(src, before).push(lexeme_of(src, token)));
            assert(lexemes_of(src, tokens@) + lex_from(src, end as int) =~= lexemes_of(src, before)
                + lex_from(src, pos as int));
            pos = end;
        }
    }
    let ghost before = tokens@;
    let token = Token { kind: TokenKind::EndOfInput, start: pos, end: pos };
    tokens.push(token);
    assert(src.subrange(pos as int, pos as int) =~= Seq::<char>::empty());
    assert(lexemes_of(src, tokens@) =~= lexemes_of(src, before).push(end_lexeme(src)));
    assert(lexemes_of(src, tokens@) =~= lexemes_of(src, before) + lex_from(src, pos as int));
    tokens
}

} // verus!
