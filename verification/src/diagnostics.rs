//! Syntax errors: where a text stops being a sentence of the grammar, and
//! how that is told to a reader.

use crate::grammar::{fault_at, Fault, KindSet};
use crate::text::{capped, decimal, push_decimal};
use crate::token::{lexemes_of, well_formed, Token, TokenKind};
use vstd::prelude::*;

verus! {

/// A syntax error: the line and column of the offending token, both counted
/// from 1, the kinds of token that would have been accepted there, and the
/// kind that was met.
#[derive(Debug, PartialEq, Eq)]
pub struct SyntaxError {
    pub line: usize,
    pub col: usize,
    /// What would have been accepted, in the order of `TokenKind`.
    pub positives: Vec<TokenKind>,
    /// What stood there instead; empty where no token begins with the
    /// character that stood there.
    pub negatives: Vec<TokenKind>,
}

/// A syntax error as a mathematical value.
pub ghost struct SyntaxErrorView {
    pub line: int,
    pub col: int,
    pub positives: Seq<TokenKind>,
    pub negatives: Seq<TokenKind>,
}

impl View for SyntaxError {
    type V = SyntaxErrorView;

    open spec fn view(&self) -> SyntaxErrorView {
        SyntaxErrorView {
            line: self.line as int,
            col: self.col as int,
            positives: self.positives@,
            negatives: self.negatives@,
        }
    }
}

/// The number of line feeds among the first `at` characters.
pub open spec fn breaks_before(s: Seq<char>, at: int) -> int
    decreases at,
{
    if at <= 0 {
        0
    } else if s[at - 1] == '\n' {
        breaks_before(s, at - 1) + 1
    } else {
        breaks_before(s, at - 1)
    }
}

/// The index at which the line of character `at` begins.
pub open spec fn line_start(s: Seq<char>, at: int) -> int
    decreases at,
{
    if at <= 0 {
        0
    } else if s[at - 1] == '\n' {
        at
    } else {
        line_start(s, at - 1)
    }
}

/// `kind` alone where `present` holds, nothing where it does not.
pub open spec fn one_if(present: bool, kind: TokenKind) -> Seq<TokenKind> {
    if present {
        seq![kind]
    } else {
        Seq::empty()
    }
}

/// The kinds of a set, in the order of `TokenKind`.
pub open spec fn kinds_of(set: KindSet) -> Seq<TokenKind> {
    one_if(set.identifier, TokenKind::Identifier) + one_if(set.number, TokenKind::Number) + one_if(
        set.comma,
        TokenKind::Comma,
    ) + one_if(set.open_paren, TokenKind::OpenParen) + one_if(
        set.close_paren,
        TokenKind::CloseParen,
    ) + one_if(set.open_bracket, TokenKind::OpenBracket) + one_if(
        set.close_bracket,
        TokenKind::CloseBracket,
    ) + one_if(set.equals, TokenKind::Equals) + one_if(set.line_break, TokenKind::LineBreak)
        + one_if(set.end_of_input, TokenKind::EndOfInput)
}

/// The syntax error that reports `fault` in the text `src`.
pub open spec fn syntax_error(src: Seq<char>, fault: Fault) -> SyntaxErrorView {
    SyntaxErrorView {
        line: capped(breaks_before(src, fault.at) + 1),
        col: capped(fault.at - line_start(src, fault.at) + 1),
        positives: kinds_of(fault.expected),
        negatives: if fault.found == TokenKind::Unknown {
            Seq::empty()
        } else {
            seq![fault.found]
        },
    }
}

/// The name of a token kind.
pub open spec fn kind_name(kind: TokenKind) -> Seq<char> {
    match kind {
        TokenKind::Identifier => "Identifier"@,
        TokenKind::Number => "Number"@,
        TokenKind::Comma => "Comma"@,
        TokenKind::OpenParen => "OpenParen"@,
        TokenKind::CloseParen => "CloseParen"@,
        TokenKind::OpenBracket => "OpenBracket"@,
        TokenKind::CloseBracket => "CloseBracket"@,
        TokenKind::Equals => "Equals"@,
        TokenKind::LineBreak => "LineBreak"@,
        TokenKind::EndOfInput => "EndOfInput"@,
        TokenKind::Unknown => "Unknown"@,
    }
}

/// The name of the kind as it is shown: between double quotes where `quote`
/// is set.
pub open spec fn shown_name(kind: TokenKind, quote: bool) -> Seq<char> {
    if quote {
        seq!['"'] + kind_name(kind) + seq!['"']
    } else {
        kind_name(kind)
    }
}

/// The shown names of the kinds with `sep` between each two of them.
pub open spec fn names_joined(kinds: Seq<TokenKind>, quote: bool, sep: Seq<char>) -> Seq<char>
    decreases kinds.len(),
{
    if kinds.len() == 0 {
        Seq::empty()
    } else if kinds.len() == 1 {
        shown_name(kinds[0], quote)
    } else {
        names_joined(kinds.drop_last(), quote, sep) + sep + shown_name(kinds.last(), quote)
    }
}

/// The part of a diagnostic that lists kinds: empty where there is none,
/// else a blank and, in parentheses, `label`, a blank and the joined names.
pub open spec fn listed(label: Seq<char>, kinds: Seq<TokenKind>, quote: bool, sep: Seq<char>) -> Seq<
    char,
> {
    if kinds.len() == 0 {
        Seq::empty()
    } else {
        seq![' ', '('] + label + seq![' '] + names_joined(kinds, quote, sep) + seq![')']
    }
}

/// The diagnostic of a syntax error, such as
/// `Parsing error at (3, 7) (expected Comma or CloseParen) (unexpected "Identifier")`.
pub open spec fn diagnostics_text(e: SyntaxErrorView) -> Seq<char> {
    "Parsing error at ("@ + decimal(e.line as nat) + seq![',', ' '] + decimal(e.col as nat) + seq![
        ')',
    ] + listed("expected"@, e.positives, false, " or "@) + listed(
        "unexpected"@,
        e.negatives,
        true,
        ", "@,
    )
}

/// The line and the column of character `at`, both counted from 1.
fn locate(src: &Vec<char>, at: usize) -> (pos: (usize, usize))
    requires
        at <= src.len(),
    ensures
        pos.0 == capped(breaks_before(src@, at as int) + 1),
        pos.1 == capped(at - line_start(src@, at as int) + 1),
{
    let mut breaks: usize = 0;
    let mut start: usize = 0;
    let mut i: usize = 0;
    while i < at
        invariant
            i <= at <= src.len(),
            breaks == breaks_before(src@, i as int),
            start == line_start(src@, i as int),
            breaks <= i,
            start <= i,
        decreases at - i,
    {
        if src[i] == '\n' {
            breaks += 1;
            start = i + 1;
        }
        i += 1;
    }
    let line = if breaks < usize::MAX {
        breaks + 1
    } else {
        usize::MAX
    };
    let col = if at - start < usize::MAX {
        at - start + 1
    } else {
        usize::MAX
    };
    (line, col)
}

/// Appends `kind` where `present` holds.
fn push_if(list: &mut Vec<TokenKind>, present: bool, kind: TokenKind)
    ensures
        final(list)@ == old(list)@ + one_if(present, kind),
{
    if present {
        list.push(kind);
    }
    assert(list@ =~= old(list)@ + one_if(present, kind));
}

/// The kinds of a set, in the order of `TokenKind`.
fn kinds(set: KindSet) -> (list: Vec<TokenKind>)
    ensures
        list@ == kinds_of(set),
{
    let mut list: Vec<TokenKind> = Vec::new();
    assert(list@ + one_if(set.identifier, TokenKind::Identifier) =~= one_if(
        set.identifier,
        TokenKind::Identifier,
    ));
    push_if(&mut list, set.identifier, TokenKind::Identifier);
    push_if(&mut list, set.number, TokenKind::Number);
    push_if(&mut list, set.comma, TokenKind::Comma);
    push_if(&mut list, set.open_paren, TokenKind::OpenParen);
    push_if(&mut list, set.close_paren, TokenKind::CloseParen);
    push_if(&mut list, set.open_bracket, TokenKind::OpenBracket);
    push_if(&mut list, set.close_bracket, TokenKind::CloseBracket);
    push_if(&mut list, set.equals, TokenKind::Equals);
    push_if(&mut list, set.line_break, TokenKind::LineBreak);
    push_if(&mut list, set.end_of_input, TokenKind::EndOfInput);
    list
}

/// The syntax error of meeting token `at` where one of `expected` had to
/// stand.
pub(crate) fn report(src: &Vec<char>, tokens: &Vec<Token>, at: usize, expected: KindSet) -> (e:
    SyntaxError)
    requires
        well_formed(src@, tokens@),
        at < tokens.len(),
    ensures
        e@ == syntax_error(src@, fault_at(lexemes_of(src@, tokens@).skip(at as int), expected)),
{
    let token = tokens[at];
    let (line, col) = locate(src, token.start);
    let mut negatives: Vec<TokenKind> = Vec::new();
    if token.kind != TokenKind::Unknown {
        negatives.push(token.kind);
    }
    let e = SyntaxError { line, col, positives: kinds(expected), negatives };
    proof {
        let fault = fault_at(lexemes_of(src@, tokens@).skip(at as int), expected);
        assert(fault.at == token.start);
        assert(fault.found == token.kind);
        assert(e@.negatives =~= syntax_error(src@, fault).negatives);
    }
    e
}

/// The name of a token kind.
pub fn name_of(kind: TokenKind) -> (name: &'static str)
    ensures
        name@ == kind_name(kind),
{
    match kind {
        TokenKind::Identifier => "Identifier",
        TokenKind::Number => "Number",
        TokenKind::Comma => "Comma",
        TokenKind::OpenParen => "OpenParen",
        TokenKind::CloseParen => "CloseParen",
        TokenKind::OpenBracket => "OpenBracket",
        TokenKind::CloseBracket => "CloseBracket",
        TokenKind::Equals => "Equals",
        TokenKind::LineBreak => "LineBreak",
        TokenKind::EndOfInput => "EndOfInput",
        TokenKind::Unknown => "Unknown",
    }
}

/// Appends the part of a diagnostic that lists kinds.
fn push_listed(out: &mut String, label: &str, list: &Vec<TokenKind>, quote: bool, sep: &str)
    ensures
        final(out)@ == old(out)@ + listed(label@, list@, quote, sep@),
{
    let ghost start = old(out)@;
    if list.len() == 0 {
        assert(out@ =~= start + listed(label@, list@, quote, sep@));
        return ;
    }
    out.push(' ');
    out.push('(');
    out.append(label);
    out.push(' ');
    let ghost head = start + seq![' ', '('] + label@ + seq![' '];
    assert(out@ =~= head + names_joined(list@.take(0), quote, sep@));
    let mut i: usize = 0;
    while i < list.len()
        invariant
            i <= list.len(),
            out@ == head + names_joined(list@.take(i as int), quote, sep@),
        decreases list.len() - i,
    {
        let ghost before = out@;
        if i > 0 {
            out.append(sep);
        }
        if quote {
            out.push('"');
        }
        out.append(name_of(list[i]));
        if quote {
            out.push('"');
        }
        proof {
            assert(list@.take(i + 1).drop_last() =~= list@.take(i as int));
            assert(list@.take(i + 1).last() == list[i as int]);
            if i == 0 {
                assert(list@.take(1)[0] == list[0]);
                assert(names_joined(list@.take(0), quote, sep@) =~= Seq::<char>::empty());
            }
            assert(out@ =~= head + names_joined(list@.take(i + 1), quote, sep@));
        }
        i += 1;
    }
    assert(list@.take(list.len() as int) =~= list@);
    out.push(')');
    assert(out@ =~= start + listed(label@, list@, quote, sep@));
}

/// Tells a syntax error in one line: where it is, what would have been
/// accepted there, and what stood there instead.
pub fn into_diagnostics(e: &SyntaxError) -> (text: String)
    ensures
        text@ == diagnostics_text(e@),
{
    let mut out = String::new();
    out.append("Parsing error at (");
    push_decimal(&mut out, e.line);
    out.push(',');
    out.push(' ');
    push_decimal(&mut out, e.col);
    out.push(')');
    assert(out@ =~= "Parsing error at ("@ + decimal(e.line as nat) + seq![',', ' '] + decimal(
        e.col as nat,
    ) + seq![')']);
    push_listed(&mut out, "expected", &e.positives, false, " or ");
    push_listed(&mut out, "unexpected", &e.negatives, true, ", ");
    out
}

} // verus!
