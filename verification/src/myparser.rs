//! The parser: source text to parse trees, by the grammar of `grammar`.

use crate::ast::{
    param_trees, row_trees, rows_trees, Key, KeyTree, LayerBlock, LayerBlockTree, Param, Program,
};
use crate::diagnostics::{report, syntax_error, SyntaxError};
use crate::grammar::{
    blocks, expect, fault_at, head, key, key_of, layer_block, layer_block_of, layer_of, line,
    line_of, param, params, program_of, rows, skip_breaks, Fault, KindSet, Parse,
};
use crate::text::{from_chars, to_chars};
use crate::token::{lexemes_of, tokenize, well_formed, Lexeme, Token, TokenKind};
use vstd::prelude::*;

verus! {

/// `parsed` recognised `value` and left the tokens from `next` on.
pub open spec fn reads<T>(
    parsed: Result<Parse<T>, Fault>,
    lexemes: Seq<Lexeme>,
    value: T,
    next: int,
    also: KindSet,
) -> bool {
    0 <= next < lexemes.len() && parsed == Ok::<Parse<T>, Fault>(
        Parse { value, rest: lexemes.skip(next), also },
    )
}

/// `parsed` stopped at token `at`, where one of `expected` had to stand.
pub open spec fn fails<T>(
    parsed: Result<Parse<T>, Fault>,
    lexemes: Seq<Lexeme>,
    at: int,
    expected: KindSet,
) -> bool {
    0 <= at < lexemes.len() && parsed == Err::<Parse<T>, Fault>(
        fault_at(lexemes.skip(at), expected),
    )
}

/// The tokens from `i` on begin with token `i` and go on with those from
/// `i + 1` on.
pub proof fn lemma_skip(src: Seq<char>, tokens: Seq<Token>, i: int)
    requires
        0 <= i < tokens.len(),
    ensures
        head(lexemes_of(src, tokens).skip(i)).kind == tokens[i].kind,
        head(lexemes_of(src, tokens).skip(i)).start == tokens[i].start,
        lexemes_of(src, tokens).skip(i)[0].text == src.subrange(
            tokens[i].start as int,
            tokens[i].end as int,
        ),
        lexemes_of(src, tokens).skip(i).skip(1) == lexemes_of(src, tokens).skip(i + 1),
        lexemes_of(src, tokens).skip(i).len() == tokens.len() - i,
        lexemes_of(src, tokens).len() == tokens.len(),
{
    let l = lexemes_of(src, tokens);
    assert(l.skip(i).skip(1) =~= l.skip(i + 1));
}

/// The index of the first token from `i` on that is no line break.
fn pass_breaks(src: &Vec<char>, tokens: &Vec<Token>, i: usize) -> (j: usize)
    requires
        well_formed(src@, tokens@),
        i < tokens.len(),
    ensures
        i <= j < tokens.len(),
        lexemes_of(src@, tokens@).skip(j as int) == skip_breaks(
            lexemes_of(src@, tokens@).skip(i as int),
        ),
        tokens[j as int].kind != TokenKind::LineBreak,
{
    let ghost l = lexemes_of(src@, tokens@);
    let mut j: usize = i;
    while tokens[j].kind == TokenKind::LineBreak
        invariant
            well_formed(src@, tokens@),
            l == lexemes_of(src@, tokens@),
            i <= j < tokens.len(),
            skip_breaks(l.skip(j as int)) == skip_breaks(l.skip(i as int)),
        decreases tokens.len() - j,
    {
        proof {
            lemma_skip(src@, tokens@, j as int);
        }
        j += 1;
    }
    proof {
        lemma_skip(src@, tokens@, j as int);
    }
    j
}

/// Reads a key expression that begins at token `i`.
fn read_key(src: &Vec<char>, tokens: &Vec<Token>, i: usize) -> (r: Result<
    (Key, usize, KindSet),
    (usize, KindSet),
>)
    requires
        well_formed(src@, tokens@),
        i < tokens.len(),
    ensures
        match r {
            Ok((k, next, also)) => next > i && reads(
                key(lexemes_of(src@, tokens@).skip(i as int)),
                lexemes_of(src@, tokens@),
                k@,
                next as int,
                also,
            ),
            Err((at, expected)) => fails(
                key(lexemes_of(src@, tokens@).skip(i as int)),
                lexemes_of(src@, tokens@),
                at as int,
                expected,
            ),
        },
    decreases tokens.len() - i, 0nat,
{
    let ghost l = lexemes_of(src@, tokens@);
    proof {
        lemma_skip(src@, tokens@, i as int);
    }
    if tokens[i].kind != TokenKind::Identifier {
        return Err((i, KindSet::only(TokenKind::Identifier)));
    }
    let name = from_chars(src, tokens[i].start, tokens[i].end);
    proof {
        lemma_skip(src@, tokens@, i + 1);
    }
    if tokens[i + 1].kind != TokenKind::OpenParen {
        return Ok((Key::KeyCode(name), i + 1, KindSet::only(TokenKind::OpenParen)));
    }
    assert(l.skip(i as int).skip(2) =~= l.skip(i + 2));
    match read_params(src, tokens, i + 2) {
        Err(e) => Err(e),
        Ok((list, j, also)) => {
            proof {
                lemma_skip(src@, tokens@, j as int);
            }
            if tokens[j].kind == TokenKind::CloseParen {
                Ok((Key::FunctionCall(name, list), j + 1, KindSet::empty()))
            } else {
                Err((j, also.with(TokenKind::CloseParen)))
            }
        },
    }
}

/// Reads a parameter that begins at token `i`.
fn read_param(src: &Vec<char>, tokens: &Vec<Token>, i: usize) -> (r: Result<
    (Param, usize, KindSet),
    (usize, KindSet),
>)
    requires
        well_formed(src@, tokens@),
        i < tokens.len(),
    ensures
        match r {
            Ok((p, next, also)) => next > i && reads(
                param(lexemes_of(src@, tokens@).skip(i as int)),
                lexemes_of(src@, tokens@),
                p@,
                next as int,
                also,
            ),
            Err((at, expected)) => fails(
                param(lexemes_of(src@, tokens@).skip(i as int)),
                lexemes_of(src@, tokens@),
                at as int,
                expected,
            ),
        },
    decreases tokens.len() - i, 1nat,
{
    proof {
        lemma_skip(src@, tokens@, i as int);
    }
    if tokens[i].kind == TokenKind::Number {
        let text = from_chars(src, tokens[i].start, tokens[i].end);
        Ok((Param::Literal(text), i + 1, KindSet::empty()))
    } else if tokens[i].kind == TokenKind::Identifier {
        match read_key(src, tokens, i) {
            Err(e) => Err(e),
            Ok((k, next, also)) => Ok((Param::Key(k), next, also)),
        }
    } else {
        Err((i, KindSet::only(TokenKind::Identifier).with(TokenKind::Number)))
    }
}

/// Reads a list of parameters that begins at token `i`.
fn read_params(src: &Vec<char>, tokens: &Vec<Token>, i: usize) -> (r: Result<
    (Vec<Param>, usize, KindSet),
    (usize, KindSet),
>)
    requires
        well_formed(src@, tokens@),
        i < tokens.len(),
    ensures
        match r {
            Ok((list, next, also)) => next > i && reads(
                params(lexemes_of(src@, tokens@).skip(i as int), Seq::empty()),
                lexemes_of(src@, tokens@),
                param_trees(list@),
                next as int,
                also,
            ),
            Err((at, expected)) => fails(
                params(lexemes_of(src@, tokens@).skip(i as int), Seq::empty()),
                lexemes_of(src@, tokens@),
                at as int,
                expected,
            ),
        },
    decreases tokens.len() - i, 2nat,
{
    let ghost l = lexemes_of(src@, tokens@);
    let mut list: Vec<Param> = Vec::new();
    let mut j: usize = i;
    loop
        invariant
            well_formed(src@, tokens@),
            l == lexemes_of(src@, tokens@),
            i <= j < tokens.len(),
            params(l.skip(j as int), param_trees(list@)) == params(l.skip(i as int), Seq::empty()),
        decreases tokens.len() - j,
    {
        match read_param(src, tokens, j) {
            Err(e) => {
                return Err(e);
            },
            Ok((p, next, also)) => {
                let ghost before = list@;
                list.push(p);
                proof {
                    assert(list@.drop_last() =~= before);
                    lemma_skip(src@, tokens@, next as int);
                    lemma_skip(src@, tokens@, j as int);
                }
                if tokens[next].kind == TokenKind::Comma {
                    j = next + 1;
                } else {
                    return Ok((list, next, also.with(TokenKind::Comma)));
                }
            },
        }
    }
}

/// Reads a row of keys that begins at token `i`.
fn read_line(src: &Vec<char>, tokens: &Vec<Token>, i: usize) -> (r: Result<
    (Vec<Key>, usize, KindSet),
    (usize, KindSet),
>)
    requires
        well_formed(src@, tokens@),
        i < tokens.len(),
    ensures
        match r {
            Ok((row, next, also)) => next > i && reads(
                line(lexemes_of(src@, tokens@).skip(i as int), Seq::empty()),
                lexemes_of(src@, tokens@),
                row_trees(row@),
                next as int,
                also,
            ),
            Err((at, expected)) => fails(
                line(lexemes_of(src@, tokens@).skip(i as int), Seq::empty()),
                lexemes_of(src@, tokens@),
                at as int,
                expected,
            ),
        },
{
    let ghost l = lexemes_of(src@, tokens@);
    let mut row: Vec<Key> = Vec::new();
    let mut j: usize = i;
    assert(row_trees(row@) =~= Seq::empty());
    loop
        invariant
            well_formed(src@, tokens@),
            l == lexemes_of(src@, tokens@),
            i <= j < tokens.len(),
            line(l.skip(j as int), row_trees(row@)) == line(l.skip(i as int), Seq::empty()),
        decreases tokens.len() - j,
    {
        match read_key(src, tokens, j) {
            Err(e) => {
                return Err(e);
            },
            Ok((k, next, also)) => {
                let ghost before = row@;
                row.push(k);
                proof {
                    assert(row_trees(row@) =~= row_trees(before).push(k@));
                    lemma_skip(src@, tokens@, next as int);
                    lemma_skip(src@, tokens@, j as int);
                }
                if tokens[next].kind != TokenKind::Comma {
                    return Ok((row, next, also.with(TokenKind::Comma)));
                }
                proof {
                    lemma_skip(src@, tokens@, next + 1);
                }
                if tokens[next + 1].kind == TokenKind::Identifier {
                    j = next + 1;
                } else {
                    return Ok((row, next + 1, KindSet::only(TokenKind::Identifier)));
                }
            },
        }
    }
}

/// Reads the rows of a layer that begin at token `i`, no line break.
fn read_rows(src: &Vec<char>, tokens: &Vec<Token>, i: usize) -> (r: Result<
    (Vec<Vec<Key>>, usize, KindSet),
    (usize, KindSet),
>)
    requires
        well_formed(src@, tokens@),
        i < tokens.len(),
    ensures
        match r {
            Ok((grid, next, also)) => next > i && reads(
                rows(lexemes_of(src@, tokens@).skip(i as int), Seq::empty()),
                lexemes_of(src@, tokens@),
                rows_trees(grid@),
                next as int,
                also,
            ),
            Err((at, expected)) => fails(
                rows(lexemes_of(src@, tokens@).skip(i as int), Seq::empty()),
                lexemes_of(src@, tokens@),
                at as int,
                expected,
            ),
        },
{
    let ghost l = lexemes_of(src@, tokens@);
    let mut grid: Vec<Vec<Key>> = Vec::new();
    let mut j: usize = i;
    assert(rows_trees(grid@) =~= Seq::empty());
    loop
        invariant
            well_formed(src@, tokens@),
            l == lexemes_of(src@, tokens@),
            i <= j < tokens.len(),
            rows(l.skip(j as int), rows_trees(grid@)) == rows(l.skip(i as int), Seq::empty()),
        decreases tokens.len() - j,
    {
        match read_line(src, tokens, j) {
            Err(e) => {
                return Err(e);
            },
            Ok((row, next, also)) => {
                let ghost before = grid@;
                let ghost trees = row_trees(row@);
                grid.push(row);
                proof {
                    assert(rows_trees(grid@) =~= rows_trees(before).push(trees));
                    lemma_skip(src@, tokens@, next as int);
                    lemma_skip(src@, tokens@, j as int);
                }
                if tokens[next].kind != TokenKind::LineBreak {
                    return Ok((grid, next, also.with(TokenKind::LineBreak)));
                }
                let behind = pass_breaks(src, tokens, next);
                proof {
                    lemma_skip(src@, tokens@, behind as int);
                }
                if tokens[behind].kind == TokenKind::Identifier {
                    j = behind;
                } else {
                    return Ok((grid, behind, KindSet::only(TokenKind::Identifier)));
                }
            },
        }
    }
}

/// Passes token `i`, which has to be of kind `kind`, and the line breaks
/// behind it.
fn pass(src: &Vec<char>, tokens: &Vec<Token>, i: usize, kind: TokenKind) -> (r: Result<
    usize,
    (usize, KindSet),
>)
    requires
        well_formed(src@, tokens@),
        i < tokens.len(),
        kind != TokenKind::EndOfInput,
    ensures
        match r {
            Ok(next) => i < next < tokens.len() && tokens[i as int].kind == kind
                && tokens[next as int].kind != TokenKind::LineBreak && expect(
                lexemes_of(src@, tokens@).skip(i as int),
                kind,
            ) == Ok::<Seq<Lexeme>, Fault>(lexemes_of(src@, tokens@).skip(next as int)),
            Err((at, expected)) => at == i && expect(
                lexemes_of(src@, tokens@).skip(i as int),
                kind,
            ) == Err::<Seq<Lexeme>, Fault>(
                fault_at(lexemes_of(src@, tokens@).skip(at as int), expected),
            ),
        },
{
    proof {
        lemma_skip(src@, tokens@, i as int);
    }
    if tokens[i].kind == kind {
        Ok(pass_breaks(src, tokens, i + 1))
    } else {
        Err((i, KindSet::only(kind)))
    }
}

/// Reads a layer block that begins at token `i`.
fn read_layer_block(src: &Vec<char>, tokens: &Vec<Token>, i: usize) -> (r: Result<
    (LayerBlock, usize, KindSet),
    (usize, KindSet),
>)
    requires
        well_formed(src@, tokens@),
        i < tokens.len(),
    ensures
        match r {
            Ok((block, next, also)) => next > i && reads(
                layer_block(lexemes_of(src@, tokens@).skip(i as int)),
                lexemes_of(src@, tokens@),
                block@,
                next as int,
                also,
            ),
            Err((at, expected)) => fails(
                layer_block(lexemes_of(src@, tokens@).skip(i as int)),
                lexemes_of(src@, tokens@),
                at as int,
                expected,
            ),
        },
{
    let ghost l = lexemes_of(src@, tokens@);
    let at_num = match pass(src, tokens, i, TokenKind::OpenBracket) {
        Err(e) => {
            return Err(e);
        },
        Ok(next) => next,
    };
    proof {
        lemma_skip(src@, tokens@, at_num as int);
    }
    if tokens[at_num].kind != TokenKind::Identifier && tokens[at_num].kind != TokenKind::Number {
        return Err((at_num, KindSet::only(TokenKind::Identifier).with(TokenKind::Number)));
    }
    let num = from_chars(src, tokens[at_num].start, tokens[at_num].end);
    let at_close = pass_breaks(src, tokens, at_num + 1);
    let at_equals = match pass(src, tokens, at_close, TokenKind::CloseBracket) {
        Err(e) => {
            return Err(e);
        },
        Ok(next) => next,
    };
    let at_name = match pass(src, tokens, at_equals, TokenKind::Equals) {
        Err(e) => {
            return Err(e);
        },
        Ok(next) => next,
    };
    proof {
        lemma_skip(src@, tokens@, at_name as int);
    }
    let at_open = match pass(src, tokens, at_name, TokenKind::Identifier) {
        Err(e) => {
            return Err(e);
        },
        Ok(next) => next,
    };
    let name = from_chars(src, tokens[at_name].start, tokens[at_name].end);
    let at_layer = match pass(src, tokens, at_open, TokenKind::OpenParen) {
        Err(e) => {
            return Err(e);
        },
        Ok(next) => next,
    };
    // `pass` has left the line breaks behind, so the rows begin here.
    assert(skip_breaks(l.skip(at_layer as int)) == l.skip(at_layer as int)) by {
        lemma_skip(src@, tokens@, at_layer as int);
    }
    match read_rows(src, tokens, at_layer) {
        Err(e) => Err(e),
        Ok((grid, j, also)) => {
            proof {
                lemma_skip(src@, tokens@, j as int);
            }
            if tokens[j].kind == TokenKind::CloseParen {
                Ok((LayerBlock { num, name, rows: grid }, j + 1, KindSet::empty()))
            } else {
                Err((j, also.with(TokenKind::CloseParen)))
            }
        },
    }
}

/// The trees of a list of layer blocks.
pub open spec fn block_trees(list: Seq<LayerBlock>) -> Seq<LayerBlockTree> {
    Seq::new(list.len(), |i: int| list[i]@)
}

/// Reads the layer blocks of a program that begin at token `i`.
fn read_blocks(src: &Vec<char>, tokens: &Vec<Token>, i: usize) -> (r: Result<
    (Vec<LayerBlock>, usize, KindSet),
    (usize, KindSet),
>)
    requires
        well_formed(src@, tokens@),
        i < tokens.len(),
    ensures
        match r {
            Ok((list, next, also)) => next > i && reads(
                blocks(lexemes_of(src@, tokens@).skip(i as int), Seq::empty()),
                lexemes_of(src@, tokens@),
                block_trees(list@),
                next as int,
                also,
            ),
            Err((at, expected)) => fails(
                blocks(lexemes_of(src@, tokens@).skip(i as int), Seq::empty()),
                lexemes_of(src@, tokens@),
                at as int,
                expected,
            ),
        },
{
    let ghost l = lexemes_of(src@, tokens@);
    let mut list: Vec<LayerBlock> = Vec::new();
    let mut j: usize = i;
    assert(block_trees(list@) =~= Seq::empty());
    loop
        invariant
            well_formed(src@, tokens@),
            l == lexemes_of(src@, tokens@),
            i <= j < tokens.len(),
            blocks(l.skip(j as int), block_trees(list@)) == blocks(l.skip(i as int), Seq::empty()),
        decreases tokens.len() - j,
    {
        match read_layer_block(src, tokens, j) {
            Err(e) => {
                return Err(e);
            },
            Ok((block, next, _also)) => {
                let ghost before = list@;
                let ghost tree = block@;
                list.push(block);
                proof {
                    assert(block_trees(list@) =~= block_trees(before).push(tree));
                    lemma_skip(src@, tokens@, j as int);
                }
                let at_comma = pass_breaks(src, tokens, next);
                proof {
                    lemma_skip(src@, tokens@, at_comma as int);
                }
                let comma = tokens[at_comma].kind == TokenKind::Comma;
                let behind = if comma {
                    pass_breaks(src, tokens, at_comma + 1)
                } else {
                    at_comma
                };
                proof {
                    lemma_skip(src@, tokens@, behind as int);
                }
                if tokens[behind].kind == TokenKind::OpenBracket {
                    j = behind;
                } else {
                    let also = if comma {
                        KindSet::only(TokenKind::OpenBracket)
                    } else {
                        KindSet::only(TokenKind::OpenBracket).with(TokenKind::Comma)
                    };
                    return Ok((list, behind, also));
                }
            },
        }
    }
}

/// Sees that nothing but line breaks follows token `next`.
fn finish(src: &Vec<char>, tokens: &Vec<Token>, next: usize, also: KindSet) -> (r: Result<
    (),
    SyntaxError,
>)
    requires
        well_formed(src@, tokens@),
        next < tokens.len(),
    ensures
        match r {
            Ok(()) => head(skip_breaks(lexemes_of(src@, tokens@).skip(next as int))).kind
                == TokenKind::EndOfInput,
            Err(e) => head(skip_breaks(lexemes_of(src@, tokens@).skip(next as int))).kind
                != TokenKind::EndOfInput && e@ == syntax_error(
                src@,
                fault_at(
                    skip_breaks(lexemes_of(src@, tokens@).skip(next as int)),
                    also.with(TokenKind::EndOfInput),
                ),
            ),
        },
{
    let end = pass_breaks(src, tokens, next);
    proof {
        lemma_skip(src@, tokens@, end as int);
    }
    if tokens[end].kind == TokenKind::EndOfInput {
        Ok(())
    } else {
        Err(report(src, tokens, end, also.with(TokenKind::EndOfInput)))
    }
}

/// The parser of keymap sources.
pub struct MyParser;

impl MyParser {
    /// Parses a text that holds one key expression.
    pub fn parse_key(input: &str) -> (r: Result<Key, SyntaxError>)
        ensures
            match r {
                Ok(k) => key_of(input@) == Ok::<KeyTree, Fault>(k@),
                Err(e) => key_of(input@) matches Err(fault) && e@ == syntax_error(input@, fault),
            },
    {
        let src = to_chars(input);
        let tokens = tokenize(&src);
        let start = pass_breaks(&src, &tokens, 0);
        assert(lexemes_of(src@, tokens@).skip(0) =~= lexemes_of(src@, tokens@));
        match read_key(&src, &tokens, start) {
            Err((at, expected)) => Err(report(&src, &tokens, at, expected)),
            Ok((k, next, also)) => match finish(&src, &tokens, next, also) {
                Err(e) => Err(e),
                Ok(()) => Ok(k),
            },
        }
    }

    /// Parses a text that holds one row of keys.
    pub fn parse_line(input: &str) -> (r: Result<Vec<Key>, SyntaxError>)
        ensures
            match r {
                Ok(row) => line_of(input@) == Ok::<Seq<KeyTree>, Fault>(row_trees(row@)),
                Err(e) => line_of(input@) matches Err(fault) && e@ == syntax_error(input@, fault),
            },
    {
        let src = to_chars(input);
        let tokens = tokenize(&src);
        let start = pass_breaks(&src, &tokens, 0);
        assert(lexemes_of(src@, tokens@).skip(0) =~= lexemes_of(src@, tokens@));
        match read_line(&src, &tokens, start) {
            Err((at, expected)) => Err(report(&src, &tokens, at, expected)),
            Ok((row, next, also)) => match finish(&src, &tokens, next, also) {
                Err(e) => Err(e),
                Ok(()) => Ok(row),
            },
        }
    }

    /// Parses a text that holds the rows of one layer.
    pub fn parse_layer(input: &str) -> (r: Result<Vec<Vec<Key>>, SyntaxError>)
        ensures
            match r {
                Ok(grid) => layer_of(input@) == Ok::<Seq<Seq<KeyTree>>, Fault>(rows_trees(grid@)),
                Err(e) => layer_of(input@) matches Err(fault) && e@ == syntax_error(
                    input@,
                    fault,
                ),
            },
    {
        let src = to_chars(input);
        let tokens = tokenize(&src);
        let start = pass_breaks(&src, &tokens, 0);
        assert(lexemes_of(src@, tokens@).skip(0) =~= lexemes_of(src@, tokens@));
        match read_rows(&src, &tokens, start) {
            Err((at, expected)) => Err(report(&src, &tokens, at, expected)),
            Ok((grid, next, also)) => match finish(&src, &tokens, next, also) {
                Err(e) => Err(e),
                Ok(()) => Ok(grid),
            },
        }
    }

    /// Parses a text that holds one layer block.
    pub fn parse_layerblock(input: &str) -> (r: Result<LayerBlock, SyntaxError>)
        ensures
            match r {
                Ok(block) => layer_block_of(input@) == Ok::<LayerBlockTree, Fault>(block@),
                Err(e) => layer_block_of(input@) matches Err(fault) && e@ == syntax_error(
                    input@,
                    fault,
                ),
            },
    {
        let src = to_chars(input);
        let tokens = tokenize(&src);
        let start = pass_breaks(&src, &tokens, 0);
        assert(lexemes_of(src@, tokens@).skip(0) =~= lexemes_of(src@, tokens@));
        match read_layer_block(&src, &tokens, start) {
            Err((at, expected)) => Err(report(&src, &tokens, at, expected)),
            Ok((block, next, also)) => match finish(&src, &tokens, next, also) {
                Err(e) => Err(e),
                Ok(()) => Ok(block),
            },
        }
    }

    /// Parses a text that holds a program: one layer block or more.
    pub fn parse_program(input: &str) -> (r: Result<Program, SyntaxError>)
        ensures
            match r {
                Ok(prog) => program_of(input@) == Ok::<Seq<LayerBlockTree>, Fault>(prog@),
                Err(e) => program_of(input@) matches Err(fault) && e@ == syntax_error(
                    input@,
                    fault,
                ),
            },
    {
        let src = to_chars(input);
        let tokens = tokenize(&src);
        let start = pass_breaks(&src, &tokens, 0);
        assert(lexemes_of(src@, tokens@).skip(0) =~= lexemes_of(src@, tokens@));
        match read_blocks(&src, &tokens, start) {
            Err((at, expected)) => Err(report(&src, &tokens, at, expected)),
            Ok((list, next, also)) => match finish(&src, &tokens, next, also) {
                Err(e) => Err(e),
                Ok(()) => {
                    let prog = Program { blocks: list };
                    assert(prog@ =~= block_trees(list@));
                    Ok(prog)
                },
            },
        }
    }
}

} // verus!
