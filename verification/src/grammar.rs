//! The grammar of keymap sources, over token sequences.
//!
//! ```text
//! program    := layerBlock (','? layerBlock)* ','?
//! layerBlock := '[' (number | identifier) ']' '=' identifier '(' layer ')'
//! layer      := line (lineBreak+ line)*
//! line       := key (',' key)* ','?
//! key        := identifier | identifier '(' params ')'
//! params     := param (',' param)*
//! param      := key | number
//! ```
//!
//! Line breaks separate the rows of a layer. Between the tokens of the
//! header of a layer block, between layer blocks and around the whole text
//! they mean nothing; within a key expression none may stand. A bare
//! identifier in a parameter is a key code.
//!
//! Each function takes the tokens that are still to be read and gives back
//! what it has recognised together with the tokens that follow it, or the
//! fault at which it stopped. A fault names the kinds of token that would
//! have been accepted where it stopped; a line break is among them only
//! where it would have ended a row.

use crate::ast::{KeyTree, LayerBlockTree, ParamTree};
use crate::token::{lex, Lexeme, TokenKind};
use vstd::prelude::*;

verus! {

/// A set of token kinds. `Unknown` is in no such set.
#[derive(Clone, Copy, Debug, PartialEq, Eq, Structural)]
pub struct KindSet {
    pub identifier: bool,
    pub number: bool,
    pub comma: bool,
    pub open_paren: bool,
    pub close_paren: bool,
    pub open_bracket: bool,
    pub close_bracket: bool,
    pub equals: bool,
    pub line_break: bool,
    pub end_of_input: bool,
}

impl KindSet {
    /// The empty set.
    pub open spec fn spec_empty() -> KindSet {
        KindSet {
            identifier: false,
            number: false,
            comma: false,
            open_paren: false,
            close_paren: false,
            open_bracket: false,
            close_bracket: false,
            equals: false,
            line_break: false,
            end_of_input: false,
        }
    }

    /// The set with `kind` added.
    pub open spec fn spec_with(self, kind: TokenKind) -> KindSet {
        match kind {
            TokenKind::Identifier => KindSet { identifier: true, ..self },
            TokenKind::Number => KindSet { number: true, ..self },
            TokenKind::Comma => KindSet { comma: true, ..self },
            TokenKind::OpenParen => KindSet { open_paren: true, ..self },
            TokenKind::CloseParen => KindSet { close_paren: true, ..self },
            TokenKind::OpenBracket => KindSet { open_bracket: true, ..self },
            TokenKind::CloseBracket => KindSet { close_bracket: true, ..self },
            TokenKind::Equals => KindSet { equals: true, ..self },
            TokenKind::LineBreak => KindSet { line_break: true, ..self },
            TokenKind::EndOfInput => KindSet { end_of_input: true, ..self },
            TokenKind::Unknown => self,
        }
    }

    /// The set that holds `kind` alone.
    pub open spec fn spec_only(kind: TokenKind) -> KindSet {
        KindSet::spec_empty().spec_with(kind)
    }

    /// Whether `kind` is in the set.
    pub open spec fn spec_contains(self, kind: TokenKind) -> bool {
        match kind {
            TokenKind::Identifier => self.identifier,
            TokenKind::Number => self.number,
            TokenKind::Comma => self.comma,
            TokenKind::OpenParen => self.open_paren,
            TokenKind::CloseParen => self.close_paren,
            TokenKind::OpenBracket => self.open_bracket,
            TokenKind::CloseBracket => self.close_bracket,
            TokenKind::Equals => self.equals,
            TokenKind::LineBreak => self.line_break,
            TokenKind::EndOfInput => self.end_of_input,
            TokenKind::Unknown => false,
        }
    }

    /// The empty set.
    #[verifier::when_used_as_spec(spec_empty)]
    pub fn empty() -> (set: KindSet)
        ensures
            set == KindSet::spec_empty(),
    {
        KindSet {
            identifier: false,
            number: false,
            comma: false,
            open_paren: false,
            close_paren: false,
            open_bracket: false,
            close_bracket: false,
            equals: false,
            line_break: false,
            end_of_input: false,
        }
    }

    /// The set with `kind` added.
    #[verifier::when_used_as_spec(spec_with)]
    pub fn with(self, kind: TokenKind) -> (set: KindSet)
        ensures
            set == self.spec_with(kind),
    {
        let mut set = self;
        match kind {
            TokenKind::Identifier => {
                set.identifier = true;
            },
            TokenKind::Number => {
                set.number = true;
            },
            TokenKind::Comma => {
                set.comma = true;
            },
            TokenKind::OpenParen => {
                set.open_paren = true;
            },
            TokenKind::CloseParen => {
                set.close_paren = true;
            },
            TokenKind::OpenBracket => {
                set.open_bracket = true;
            },
            TokenKind::CloseBracket => {
                set.close_bracket = true;
            },
            TokenKind::Equals => {
                set.equals = true;
            },
            TokenKind::LineBreak => {
                set.line_break = true;
            },
            TokenKind::EndOfInput => {
                set.end_of_input = true;
            },
            TokenKind::Unknown => {},
        }
        set
    }

    /// The set that holds `kind` alone.
    #[verifier::when_used_as_spec(spec_only)]
    pub fn only(kind: TokenKind) -> (set: KindSet)
        ensures
            set == KindSet::spec_only(kind),
    {
        KindSet::empty().with(kind)
    }

    /// Whether `kind` is in the set.
    #[verifier::when_used_as_spec(spec_contains)]
    pub fn contains(self, kind: TokenKind) -> (b: bool)
        ensures
            b == self.spec_contains(kind),
    {
        match kind {
            TokenKind::Identifier => self.identifier,
            TokenKind::Number => self.number,
            TokenKind::Comma => self.comma,
            TokenKind::OpenParen => self.open_paren,
            TokenKind::CloseParen => self.close_paren,
            TokenKind::OpenBracket => self.open_bracket,
            TokenKind::CloseBracket => self.close_bracket,
            TokenKind::Equals => self.equals,
            TokenKind::LineBreak => self.line_break,
            TokenKind::EndOfInput => self.end_of_input,
            TokenKind::Unknown => false,
        }
    }
}

/// Where a text stops being a sentence of the grammar.
pub ghost struct Fault {
    /// Index of the first character of the offending token.
    pub at: int,
    /// The kind of the offending token.
    pub found: TokenKind,
    /// The kinds of token that would have been accepted in its place.
    pub expected: KindSet,
}

/// What was recognised at the head of a token sequence.
pub ghost struct Parse<T> {
    /// The tree of what was recognised.
    pub value: T,
    /// The tokens that follow it.
    pub rest: Seq<Lexeme>,
    /// The kinds of token with which it could have gone on, had one of them
    /// stood at the head of `rest`.
    pub also: KindSet,
}

/// The first of the tokens. A token sequence ends with `EndOfInput`, and
/// that is what an empty one is taken to begin with.
pub open spec fn head(t: Seq<Lexeme>) -> Lexeme {
    if t.len() > 0 {
        t[0]
    } else {
        Lexeme { kind: TokenKind::EndOfInput, text: Seq::empty(), start: 0 }
    }
}

/// The fault of meeting the head of `t` where one of `expected` had to stand.
pub open spec fn fault_at(t: Seq<Lexeme>, expected: KindSet) -> Fault {
    Fault { at: head(t).start, found: head(t).kind, expected }
}

/// The tokens from the first on that is no line break.
pub open spec fn skip_breaks(t: Seq<Lexeme>) -> Seq<Lexeme>
    decreases t.len(),
{
    if head(t).kind == TokenKind::LineBreak {
        skip_breaks(t.skip(1))
    } else {
        t
    }
}

/// `key := identifier | identifier '(' params ')'`
pub open spec fn key(t: Seq<Lexeme>) -> Result<Parse<KeyTree>, Fault>
    decreases t.len(), 0nat,
{
    if head(t).kind != TokenKind::Identifier {
        Err(fault_at(t, KindSet::only(TokenKind::Identifier)))
    } else if head(t.skip(1)).kind != TokenKind::OpenParen {
        Ok(
            Parse {
                value: KeyTree::KeyCode(t[0].text),
                rest: t.skip(1),
                also: KindSet::only(TokenKind::OpenParen),
            },
        )
    } else {
        match params(t.skip(2), Seq::empty()) {
            Err(fault) => Err(fault),
            Ok(list) => if head(list.rest).kind == TokenKind::CloseParen {
                Ok(
                    Parse {
                        value: KeyTree::FunctionCall(t[0].text, list.value),
                        rest: list.rest.skip(1),
                        also: KindSet::empty(),
                    },
                )
            } else {
                Err(fault_at(list.rest, list.also.with(TokenKind::CloseParen)))
            },
        }
    }
}

/// `param := key | number`
pub open spec fn param(t: Seq<Lexeme>) -> Result<Parse<ParamTree>, Fault>
    decreases t.len(), 1nat,
{
    if head(t).kind == TokenKind::Number {
        Ok(Parse { value: ParamTree::Literal(t[0].text), rest: t.skip(1), also: KindSet::empty() })
    } else if head(t).kind == TokenKind::Identifier {
        match key(t) {
            Err(fault) => Err(fault),
            Ok(k) => Ok(Parse { value: ParamTree::Key(k.value), rest: k.rest, also: k.also }),
        }
    } else {
        Err(fault_at(t, KindSet::only(TokenKind::Identifier).with(TokenKind::Number)))
    }
}

/// `params := param (',' param)*`, behind the parameters `done`.
pub open spec fn params(t: Seq<Lexeme>, done: Seq<ParamTree>) -> Result<
    Parse<Seq<ParamTree>>,
    Fault,
>
    decreases t.len(), 2nat,
{
    match param(t) {
        Err(fault) => Err(fault),
        Ok(p) => if head(p.rest).kind == TokenKind::Comma && p.rest.len() <= t.len() {
            params(p.rest.skip(1), done.push(p.value))
        } else {
            Ok(
                Parse {
                    value: done.push(p.value),
                    rest: p.rest,
                    also: p.also.with(TokenKind::Comma),
                },
            )
        },
    }
}

/// `line := key (',' key)* ','?`, behind the keys `done`.
pub open spec fn line(t: Seq<Lexeme>, done: Seq<KeyTree>) -> Result<Parse<Seq<KeyTree>>, Fault>
    decreases t.len(),
{
    match key(t) {
        Err(fault) => Err(fault),
        Ok(k) => if head(k.rest).kind != TokenKind::Comma {
            Ok(
                Parse {
                    value: done.push(k.value),
                    rest: k.rest,
                    also: k.also.with(TokenKind::Comma),
                },
            )
        } else if head(k.rest.skip(1)).kind == TokenKind::Identifier && k.rest.len() <= t.len() {
            line(k.rest.skip(1), done.push(k.value))
        } else {
            Ok(
                Parse {
                    value: done.push(k.value),
                    rest: k.rest.skip(1),
                    also: KindSet::only(TokenKind::Identifier),
                },
            )
        },
    }
}

/// `line (lineBreak+ line)* lineBreak*`, behind the rows `done`.
pub open spec fn rows(t: Seq<Lexeme>, done: Seq<Seq<KeyTree>>) -> Result<
    Parse<Seq<Seq<KeyTree>>>,
    Fault,
>
    decreases t.len(),
{
    match line(t, Seq::empty()) {
        Err(fault) => Err(fault),
        Ok(l) => if head(l.rest).kind != TokenKind::LineBreak {
            Ok(
                Parse {
                    value: done.push(l.value),
                    rest: l.rest,
                    also: l.also.with(TokenKind::LineBreak),
                },
            )
        } else if head(skip_breaks(l.rest)).kind == TokenKind::Identifier && skip_breaks(
            l.rest,
        ).len() < t.len() {
            rows(skip_breaks(l.rest), done.push(l.value))
        } else {
            Ok(
                Parse {
                    value: done.push(l.value),
                    rest: skip_breaks(l.rest),
                    also: KindSet::only(TokenKind::Identifier),
                },
            )
        },
    }
}

/// `layer := lineBreak* line (lineBreak+ line)* lineBreak*`
pub open spec fn layer(t: Seq<Lexeme>) -> Result<Parse<Seq<Seq<KeyTree>>>, Fault> {
    rows(skip_breaks(t), Seq::empty())
}

/// The tokens behind the head of `t` and the line breaks that follow it,
/// where the head is of kind `kind`.
pub open spec fn expect(t: Seq<Lexeme>, kind: TokenKind) -> Result<Seq<Lexeme>, Fault> {
    if head(t).kind == kind {
        Ok(skip_breaks(t.skip(1)))
    } else {
        Err(fault_at(t, KindSet::only(kind)))
    }
}

/// `layerBlock := '[' (number | identifier) ']' '=' identifier '(' layer ')'`
pub open spec fn layer_block(t: Seq<Lexeme>) -> Result<Parse<LayerBlockTree>, Fault> {
    match expect(t, TokenKind::OpenBracket) {
        Err(fault) => Err(fault),
        Ok(at_num) => if head(at_num).kind != TokenKind::Identifier && head(at_num).kind
            != TokenKind::Number {
            Err(fault_at(at_num, KindSet::only(TokenKind::Identifier).with(TokenKind::Number)))
        } else {
            match expect(skip_breaks(at_num.skip(1)), TokenKind::CloseBracket) {
                Err(fault) => Err(fault),
                Ok(at_equals) => match expect(at_equals, TokenKind::Equals) {
                    Err(fault) => Err(fault),
                    Ok(at_name) => match expect(at_name, TokenKind::Identifier) {
                        Err(fault) => Err(fault),
                        Ok(at_open) => match expect(at_open, TokenKind::OpenParen) {
                            Err(fault) => Err(fault),
                            Ok(at_layer) => match layer(at_layer) {
                                Err(fault) => Err(fault),
                                Ok(body) => if head(body.rest).kind == TokenKind::CloseParen {
                                    Ok(
                                        Parse {
                                            value: LayerBlockTree {
                                                num: at_num[0].text,
                                                name: at_name[0].text,
                                                rows: body.value,
                                            },
                                            rest: body.rest.skip(1),
                                            also: KindSet::empty(),
                                        },
                                    )
                                } else {
                                    Err(
                                        fault_at(
                                            body.rest,
                                            body.also.with(TokenKind::CloseParen),
                                        ),
                                    )
                                },
                            },
                        },
                    },
                },
            }
        },
    }
}

/// `layerBlock (','? layerBlock)* ','?`, behind the blocks `done`.
pub open spec fn blocks(t: Seq<Lexeme>, done: Seq<LayerBlockTree>) -> Result<
    Parse<Seq<LayerBlockTree>>,
    Fault,
>
    decreases t.len(),
{
    match layer_block(t) {
        Err(fault) => Err(fault),
        Ok(b) => {
            let next = skip_breaks(b.rest);
            let behind = if head(next).kind == TokenKind::Comma {
                skip_breaks(next.skip(1))
            } else {
                next
            };
            if head(behind).kind == TokenKind::OpenBracket && behind.len() < t.len() {
                blocks(behind, done.push(b.value))
            } else {
                Ok(
                    Parse {
                        value: done.push(b.value),
                        rest: behind,
                        also: if head(next).kind == TokenKind::Comma {
                            KindSet::only(TokenKind::OpenBracket)
                        } else {
                            KindSet::only(TokenKind::OpenBracket).with(TokenKind::Comma)
                        },
                    },
                )
            }
        },
    }
}

/// `program := layerBlock (','? layerBlock)* ','?`
pub open spec fn program(t: Seq<Lexeme>) -> Result<Parse<Seq<LayerBlockTree>>, Fault> {
    blocks(skip_breaks(t), Seq::empty())
}

/// What was recognised, where nothing but line breaks follows it.
pub open spec fn whole<T>(parsed: Result<Parse<T>, Fault>) -> Result<T, Fault> {
    match parsed {
        Err(fault) => Err(fault),
        Ok(p) => if head(skip_breaks(p.rest)).kind == TokenKind::EndOfInput {
            Ok(p.value)
        } else {
            Err(fault_at(skip_breaks(p.rest), p.also.with(TokenKind::EndOfInput)))
        },
    }
}

/// The key expression that a text holds.
pub open spec fn key_of(s: Seq<char>) -> Result<KeyTree, Fault> {
    whole(key(skip_breaks(lex(s))))
}

/// The row of keys that a text holds.
pub open spec fn line_of(s: Seq<char>) -> Result<Seq<KeyTree>, Fault> {
    whole(line(skip_breaks(lex(s)), Seq::empty()))
}

/// The rows of keys that a text holds.
pub open spec fn layer_of(s: Seq<char>) -> Result<Seq<Seq<KeyTree>>, Fault> {
    whole(layer(lex(s)))
}

/// The layer block that a text holds.
pub open spec fn layer_block_of(s: Seq<char>) -> Result<LayerBlockTree, Fault> {
    whole(layer_block(skip_breaks(lex(s))))
}

/// The layer blocks of the program that a text holds.
pub open spec fn program_of(s: Seq<char>) -> Result<Seq<LayerBlockTree>, Fault> {
    whole(program(lex(s)))
}

/// `r` is the end of `t`: what is left of `t` behind some of its tokens.
pub open spec fn is_end_of(r: Seq<Lexeme>, t: Seq<Lexeme>) -> bool {
    r.len() <= t.len() && r == t.skip(t.len() - r.len())
}

/// The end of an end of `t` is an end of `t`.
pub proof fn lemma_end_of_end(r: Seq<Lexeme>, m: Seq<Lexeme>, t: Seq<Lexeme>)
    requires
        is_end_of(r, m),
        is_end_of(m, t),
    ensures
        is_end_of(r, t),
{
    assert(r =~= t.skip(t.len() - r.len()));
}

/// What is left behind the first `n` tokens of `t` is an end of `t`.
pub proof fn lemma_skip_is_end(t: Seq<Lexeme>, n: int)
    requires
        0 <= n <= t.len(),
    ensures
        is_end_of(t.skip(n), t),
{
    assert(t.skip(n) =~= t.skip(t.len() - t.skip(n).len()));
}

/// Behind the line breaks stands an end of `t` that begins with no line
/// break.
pub proof fn lemma_skip_breaks(t: Seq<Lexeme>)
    ensures
        is_end_of(skip_breaks(t), t),
        head(skip_breaks(t)).kind != TokenKind::LineBreak,
    decreases t.len(),
{
    if head(t).kind == TokenKind::LineBreak {
        lemma_skip_breaks(t.skip(1));
        lemma_skip_is_end(t, 1);
        lemma_end_of_end(skip_breaks(t.skip(1)), t.skip(1), t);
    } else {
        lemma_skip_is_end(t, 0);
        assert(t.skip(0) =~= t);
    }
}

/// A key expression takes one token at least, and leaves an end of `t`.
pub proof fn lemma_key_advances(t: Seq<Lexeme>)
    ensures
        key(t) matches Ok(k) ==> is_end_of(k.rest, t) && k.rest.len() < t.len(),
    decreases t.len(), 0nat,
{
    if head(t).kind == TokenKind::Identifier {
        lemma_skip_is_end(t, 1);
        if head(t.skip(1)).kind == TokenKind::OpenParen {
            lemma_skip_is_end(t, 2);
            assert(t.skip(1).skip(1) =~= t.skip(2));
            lemma_params_advance(t.skip(2), Seq::empty());
            if let Ok(list) = params(t.skip(2), Seq::empty()) {
                if head(list.rest).kind == TokenKind::CloseParen {
                    lemma_skip_is_end(list.rest, 1);
                    lemma_end_of_end(list.rest.skip(1), list.rest, t.skip(2));
                    lemma_end_of_end(list.rest.skip(1), t.skip(2), t);
                }
            }
        }
    }
}

/// A parameter takes one token at least, and leaves an end of `t`.
pub proof fn lemma_param_advances(t: Seq<Lexeme>)
    ensures
        param(t) matches Ok(p) ==> is_end_of(p.rest, t) && p.rest.len() < t.len(),
    decreases t.len(), 1nat,
{
    if head(t).kind == TokenKind::Number {
        lemma_skip_is_end(t, 1);
    } else if head(t).kind == TokenKind::Identifier {
        lemma_key_advances(t);
    }
}

/// A list of parameters takes one token at least, and leaves an end of `t`.
pub proof fn lemma_params_advance(t: Seq<Lexeme>, done: Seq<ParamTree>)
    ensures
        params(t, done) matches Ok(list) ==> is_end_of(list.rest, t) && list.rest.len() < t.len(),
    decreases t.len(), 2nat,
{
    lemma_param_advances(t);
    if let Ok(p) = param(t) {
        if head(p.rest).kind == TokenKind::Comma {
            lemma_skip_is_end(p.rest, 1);
            lemma_end_of_end(p.rest.skip(1), p.rest, t);
            lemma_params_advance(p.rest.skip(1), done.push(p.value));
            if let Ok(list) = params(p.rest.skip(1), done.push(p.value)) {
                lemma_end_of_end(list.rest, p.rest.skip(1), t);
            }
        }
    }
}

/// A row of keys takes one token at least, and leaves an end of `t`.
pub proof fn lemma_line_advances(t: Seq<Lexeme>, done: Seq<KeyTree>)
    ensures
        line(t, done) matches Ok(l) ==> is_end_of(l.rest, t) && l.rest.len() < t.len(),
    decreases t.len(),
{
    lemma_key_advances(t);
    if let Ok(k) = key(t) {
        if head(k.rest).kind == TokenKind::Comma {
            lemma_skip_is_end(k.rest, 1);
            lemma_end_of_end(k.rest.skip(1), k.rest, t);
            if head(k.rest.skip(1)).kind == TokenKind::Identifier {
                lemma_line_advances(k.rest.skip(1), done.push(k.value));
                if let Ok(l) = line(k.rest.skip(1), done.push(k.value)) {
                    lemma_end_of_end(l.rest, k.rest.skip(1), t);
                }
            }
        }
    }
}

/// The rows of a layer take one token at least, and leave an end of `t`.
pub proof fn lemma_rows_advance(t: Seq<Lexeme>, done: Seq<Seq<KeyTree>>)
    ensures
        rows(t, done) matches Ok(l) ==> is_end_of(l.rest, t) && l.rest.len() < t.len(),
    decreases t.len(),
{
    lemma_line_advances(t, Seq::empty());
    if let Ok(l) = line(t, Seq::empty()) {
        if head(l.rest).kind == TokenKind::LineBreak {
            lemma_skip_breaks(l.rest);
            lemma_end_of_end(skip_breaks(l.rest), l.rest, t);
            if head(skip_breaks(l.rest)).kind == TokenKind::Identifier {
                lemma_rows_advance(skip_breaks(l.rest), done.push(l.value));
                if let Ok(more) = rows(skip_breaks(l.rest), done.push(l.value)) {
                    lemma_end_of_end(more.rest, skip_breaks(l.rest), t);
                }
            }
        }
    }
}

/// Behind an expected token and the line breaks that follow it stands an
/// end of `t` that is shorter than `t`.
pub proof fn lemma_expect_advances(t: Seq<Lexeme>, kind: TokenKind)
    requires
        kind != TokenKind::EndOfInput,
    ensures
        expect(t, kind) matches Ok(r) ==> is_end_of(r, t) && r.len() < t.len(),
{
    if head(t).kind == kind {
        lemma_skip_is_end(t, 1);
        lemma_skip_breaks(t.skip(1));
        lemma_end_of_end(skip_breaks(t.skip(1)), t.skip(1), t);
    }
}

/// A layer block takes one token at least, and leaves an end of `t`.
pub proof fn lemma_layer_block_advances(t: Seq<Lexeme>)
    ensures
        layer_block(t) matches Ok(b) ==> is_end_of(b.rest, t) && b.rest.len() < t.len(),
{
    lemma_expect_advances(t, TokenKind::OpenBracket);
    if let Ok(at_num) = expect(t, TokenKind::OpenBracket) {
        if head(at_num).kind == TokenKind::Identifier || head(at_num).kind == TokenKind::Number {
            let at_close = skip_breaks(at_num.skip(1));
            lemma_skip_is_end(at_num, 1);
            lemma_skip_breaks(at_num.skip(1));
            lemma_end_of_end(at_close, at_num.skip(1), at_num);
            lemma_end_of_end(at_close, at_num, t);
            lemma_expect_advances(at_close, TokenKind::CloseBracket);
            if let Ok(at_equals) = expect(at_close, TokenKind::CloseBracket) {
                lemma_end_of_end(at_equals, at_close, t);
                lemma_expect_advances(at_equals, TokenKind::Equals);
                if let Ok(at_name) = expect(at_equals, TokenKind::Equals) {
                    lemma_end_of_end(at_name, at_equals, t);
                    lemma_expect_advances(at_name, TokenKind::Identifier);
                    if let Ok(at_open) = expect(at_name, TokenKind::Identifier) {
                        lemma_end_of_end(at_open, at_name, t);
                        lemma_expect_advances(at_open, TokenKind::OpenParen);
                        if let Ok(at_layer) = expect(at_open, TokenKind::OpenParen) {
                            lemma_end_of_end(at_layer, at_open, t);
                            lemma_skip_breaks(at_layer);
                            lemma_end_of_end(skip_breaks(at_layer), at_layer, t);
                            lemma_rows_advance(skip_breaks(at_layer), Seq::empty());
                            if let Ok(body) = layer(at_layer) {
                                lemma_end_of_end(body.rest, skip_breaks(at_layer), t);
                                if head(body.rest).kind == TokenKind::CloseParen {
                                    lemma_skip_is_end(body.rest, 1);
                                    lemma_end_of_end(body.rest.skip(1), body.rest, t);
                                }
                            }
                        }
                    }
                }
            }
        }
    }
}

/// The layer blocks of a program take one token at least, and leave an end
/// of `t`.
pub proof fn lemma_blocks_advance(t: Seq<Lexeme>, done: Seq<LayerBlockTree>)
    ensures
        blocks(t, done) matches Ok(list) ==> is_end_of(list.rest, t) && list.rest.len() < t.len(),
    decreases t.len(),
{
    lemma_layer_block_advances(t);
    if let Ok(b) = layer_block(t) {
        let next = skip_breaks(b.rest);
        lemma_skip_breaks(b.rest);
        lemma_end_of_end(next, b.rest, t);
        let behind = if head(next).kind == TokenKind::Comma {
            skip_breaks(next.skip(1))
        } else {
            next
        };
        if head(next).kind == TokenKind::Comma {
            lemma_skip_is_end(next, 1);
            lemma_skip_breaks(next.skip(1));
            lemma_end_of_end(behind, next.skip(1), next);
            lemma_end_of_end(behind, next, t);
        }
        if head(behind).kind == TokenKind::OpenBracket {
            lemma_blocks_advance(behind, done.push(b.value));
            if let Ok(list) = blocks(behind, done.push(b.value)) {
                lemma_end_of_end(list.rest, behind, t);
            }
        }
    }
}

} // verus!
