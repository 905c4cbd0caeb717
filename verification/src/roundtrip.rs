//! Reducing and parsing undo each other: the canonical text of a key
//! expression parses to that key expression again.

use crate::ast::{KeyTree, ParamTree};
use crate::grammar::{
    head, is_end_of, key, key_of, lemma_param_advances, lemma_skip_breaks, param, params,
    skip_breaks, Fault, KindSet, Parse,
};
use crate::reduce::{render_key, render_param, render_params};
use crate::token::{
    digits_end, is_digit, is_ident_start, is_word, kind_of, lemma_token_end_bounds,
    lemma_trivia_end_bounds, lex, lex_from, token_end, trivia_end, word_end, Lexeme, TokenKind,
};
use vstd::prelude::*;

verus! {

/// The text is an identifier: a letter or underscore followed by letters,
/// digits and underscores.
pub open spec fn is_identifier(text: Seq<char>) -> bool {
    &&& text.len() > 0
    &&& is_ident_start(text[0])
    &&& forall|i: int| 0 <= i < text.len() ==> is_word(#[trigger] text[i])
}

/// The text is a number: one digit or more.
pub open spec fn is_number(text: Seq<char>) -> bool {
    &&& text.len() > 0
    &&& forall|i: int| 0 <= i < text.len() ==> is_digit(#[trigger] text[i])
}

/// The key expression can be written down: its names are identifiers, its
/// literals are numbers, and every call has a parameter.
pub open spec fn key_is_valid(k: KeyTree) -> bool
    decreases k,
{
    match k {
        KeyTree::KeyCode(name) => is_identifier(name),
        KeyTree::FunctionCall(name, list) => {
            &&& is_identifier(name)
            &&& list.len() > 0
            &&& forall|i: int| 0 <= i < list.len() ==> param_is_valid(#[trigger] list[i])
        },
    }
}

/// The parameter can be written down.
pub open spec fn param_is_valid(p: ParamTree) -> bool
    decreases p,
{
    match p {
        ParamTree::Literal(text) => is_number(text),
        ParamTree::Key(k) => key_is_valid(k),
    }
}

/// The text of every identifier among the tokens is an identifier, and the
/// text of every number is a number.
pub open spec fn tokens_are_valid(t: Seq<Lexeme>) -> bool {
    forall|i: int|
        0 <= i < t.len() ==> {
            &&& (#[trigger] t[i]).kind == TokenKind::Identifier ==> is_identifier(t[i].text)
            &&& t[i].kind == TokenKind::Number ==> is_number(t[i].text)
        }
}

/// From `from` up to `word_end` stand word characters only.
pub proof fn lemma_word_end_covers(s: Seq<char>, from: int)
    requires
        0 <= from <= s.len(),
    ensures
        from <= word_end(s, from) <= s.len(),
        forall|i: int| from <= i < word_end(s, from) ==> is_word(#[trigger] s[i]),
        word_end(s, from) < s.len() ==> !is_word(s[word_end(s, from)]),
    decreases s.len() - from,
{
    if from < s.len() && is_word(s[from]) {
        lemma_word_end_covers(s, from + 1);
    }
}

/// From `from` up to `digits_end` stand digits only.
pub proof fn lemma_digits_end_covers(s: Seq<char>, from: int)
    requires
        0 <= from <= s.len(),
    ensures
        from <= digits_end(s, from) <= s.len(),
        forall|i: int| from <= i < digits_end(s, from) ==> is_digit(#[trigger] s[i]),
        digits_end(s, from) < s.len() ==> !is_digit(s[digits_end(s, from)]),
    decreases s.len() - from,
{
    if from < s.len() && is_digit(s[from]) {
        lemma_digits_end_covers(s, from + 1);
    }
}

/// A run of word characters ends where the first other character stands.
pub proof fn lemma_word_end_is(s: Seq<char>, from: int, end: int)
    requires
        0 <= from <= end <= s.len(),
        forall|i: int| from <= i < end ==> is_word(#[trigger] s[i]),
        end == s.len() || !is_word(s[end]),
    ensures
        word_end(s, from) == end,
    decreases end - from,
{
    if from < end {
        assert(is_word(s[from]));
        lemma_word_end_is(s, from + 1, end);
    }
}

/// A run of digits ends where the first other character stands.
pub proof fn lemma_digits_end_is(s: Seq<char>, from: int, end: int)
    requires
        0 <= from <= end <= s.len(),
        forall|i: int| from <= i < end ==> is_digit(#[trigger] s[i]),
        end == s.len() || !is_digit(s[end]),
    ensures
        digits_end(s, from) == end,
    decreases end - from,
{
    if from < end {
        assert(is_digit(s[from]));
        lemma_digits_end_is(s, from + 1, end);
    }
}

/// The tokens of a text are valid.
pub proof fn lemma_lex_is_valid(s: Seq<char>, pos: int)
    ensures
        tokens_are_valid(lex_from(s, pos)),
    decreases s.len() - pos,
{
    if !(0 <= pos < s.len()) {
    } else if trivia_end(s, pos) > pos {
        lemma_trivia_end_bounds(s, pos);
        lemma_lex_is_valid(s, trivia_end(s, pos));
    } else {
        lemma_token_end_bounds(s, pos);
        let end = token_end(s, pos);
        let first = Lexeme { kind: kind_of(s[pos]), text: s.subrange(pos, end), start: pos };
        let others = lex_from(s, end);
        lemma_lex_is_valid(s, end);
        lemma_word_end_covers(s, pos + 1);
        lemma_digits_end_covers(s, pos + 1);
        assert(first.text[0] == s[pos]);
        assert forall|i: int| 0 <= i < first.text.len() implies (kind_of(s[pos])
            == TokenKind::Identifier ==> is_word(#[trigger] first.text[i])) && (kind_of(s[pos])
            == TokenKind::Number ==> is_digit(first.text[i])) by {
            assert(first.text[i] == s[pos + i]);
        }
        assert forall|i: int| 0 <= i < lex_from(s, pos).len() implies {
            &&& (#[trigger] lex_from(s, pos)[i]).kind == TokenKind::Identifier ==> is_identifier(
                lex_from(s, pos)[i].text,
            )
            &&& lex_from(s, pos)[i].kind == TokenKind::Number ==> is_number(
                lex_from(s, pos)[i].text,
            )
        } by {
            if i > 0 {
                assert(lex_from(s, pos)[i] == others[i - 1]);
            }
        }
    }
}

/// The end of valid tokens is valid.
pub proof fn lemma_end_is_valid(r: Seq<Lexeme>, t: Seq<Lexeme>)
    requires
        tokens_are_valid(t),
        is_end_of(r, t),
    ensures
        tokens_are_valid(r),
{
    assert forall|i: int| 0 <= i < r.len() implies {
        &&& (#[trigger] r[i]).kind == TokenKind::Identifier ==> is_identifier(r[i].text)
        &&& r[i].kind == TokenKind::Number ==> is_number(r[i].text)
    } by {
        assert(r[i] == t[t.len() - r.len() + i]);
    }
}

/// A key expression that was parsed from valid tokens is valid.
pub proof fn lemma_parsed_key_is_valid(t: Seq<Lexeme>)
    requires
        tokens_are_valid(t),
    ensures
        key(t) matches Ok(k) ==> key_is_valid(k.value),
    decreases t.len(), 0nat,
{
    if head(t).kind == TokenKind::Identifier && head(t.skip(1)).kind == TokenKind::OpenParen {
        assert(is_end_of(t.skip(2), t)) by {
            assert(t.skip(2) =~= t.skip(t.len() - t.skip(2).len()));
        }
        lemma_end_is_valid(t.skip(2), t);
        lemma_parsed_params_are_valid(t.skip(2), Seq::empty());
    }
}

/// A parameter that was parsed from valid tokens is valid.
pub proof fn lemma_parsed_param_is_valid(t: Seq<Lexeme>)
    requires
        tokens_are_valid(t),
    ensures
        param(t) matches Ok(p) ==> param_is_valid(p.value),
    decreases t.len(), 1nat,
{
    if head(t).kind == TokenKind::Identifier {
        lemma_parsed_key_is_valid(t);
    }
}

/// Parameters that were parsed from valid tokens are valid.
pub proof fn lemma_parsed_params_are_valid(t: Seq<Lexeme>, done: Seq<ParamTree>)
    requires
        tokens_are_valid(t),
        forall|i: int| 0 <= i < done.len() ==> param_is_valid(#[trigger] done[i]),
    ensures
        params(t, done) matches Ok(list) ==> list.value.len() > 0 && forall|i: int|
            0 <= i < list.value.len() ==> param_is_valid(#[trigger] list.value[i]),
    decreases t.len(), 2nat,
{
    lemma_parsed_param_is_valid(t);
    lemma_param_advances(t);
    if let Ok(p) = param(t) {
        let more = done.push(p.value);
        assert forall|i: int| 0 <= i < more.len() implies param_is_valid(#[trigger] more[i]) by {
            if i < done.len() {
                assert(more[i] == done[i]);
            }
        }
        if head(p.rest).kind == TokenKind::Comma {
            lemma_end_is_valid(p.rest, t);
            assert(is_end_of(p.rest.skip(1), p.rest)) by {
                assert(p.rest.skip(1) =~= p.rest.skip(p.rest.len() - p.rest.skip(1).len()));
            }
            lemma_end_is_valid(p.rest.skip(1), p.rest);
            lemma_parsed_params_are_valid(p.rest.skip(1), more);
        }
    }
}

/// The text `part` stands in `s` at `pos`.
pub open spec fn stands_at(s: Seq<char>, pos: int, part: Seq<char>) -> bool {
    0 <= pos && pos + part.len() <= s.len() && s.subrange(pos, pos + part.len()) == part
}

/// At `pos` the text ends, or a comma or a closing parenthesis stands there.
pub open spec fn closes_at(s: Seq<char>, pos: int) -> bool {
    pos == s.len() || (0 <= pos < s.len() && (s[pos] == ',' || s[pos] == ')'))
}

/// A key expression can end at `pos`: no word character stands there, and
/// the token that comes next opens no parenthesis.
pub open spec fn key_ends_at(s: Seq<char>, pos: int) -> bool {
    &&& pos == s.len() || (0 <= pos < s.len() && !is_word(s[pos]))
    &&& head(lex_from(s, pos)).kind != TokenKind::OpenParen
}

/// Where a text is closed, a key expression can end.
pub proof fn lemma_closed_key_ends(s: Seq<char>, pos: int)
    requires
        closes_at(s, pos),
    ensures
        key_ends_at(s, pos),
{
    if pos < s.len() {
        lemma_lex_mark(s, pos);
    }
}

/// The kinds with which a key expression could have gone on.
pub open spec fn also_after_key(k: KeyTree) -> KindSet {
    match k {
        KeyTree::KeyCode(_) => KindSet::only(TokenKind::OpenParen),
        KeyTree::FunctionCall(_, _) => KindSet::empty(),
    }
}

/// The kinds with which a parameter could have gone on.
pub open spec fn also_after_param(p: ParamTree) -> KindSet {
    match p {
        ParamTree::Literal(_) => KindSet::empty(),
        ParamTree::Key(k) => also_after_key(k),
    }
}

/// A part of a text stands in it character by character.
pub proof fn lemma_stands_at(s: Seq<char>, pos: int, part: Seq<char>)
    requires
        stands_at(s, pos, part),
    ensures
        forall|i: int| 0 <= i < part.len() ==> #[trigger] s[pos + i] == part[i],
{
    assert forall|i: int| 0 <= i < part.len() implies #[trigger] s[pos + i] == part[i] by {
        assert(s.subrange(pos, pos + part.len())[i] == s[pos + i]);
    }
}

/// The parts of a text that stands in `s` stand in `s`.
pub proof fn lemma_parts_stand(s: Seq<char>, pos: int, a: Seq<char>, b: Seq<char>)
    requires
        stands_at(s, pos, a + b),
    ensures
        stands_at(s, pos, a),
        stands_at(s, pos + a.len(), b),
{
    lemma_stands_at(s, pos, a + b);
    assert(s.subrange(pos, pos + a.len()) =~= a) by {
        assert forall|i: int| 0 <= i < a.len() implies s[pos + i] == a[i] by {
            assert((a + b)[i] == a[i]);
        }
    }
    assert(s.subrange(pos + a.len(), pos + a.len() + b.len()) =~= b) by {
        assert forall|i: int| 0 <= i < b.len() implies s[pos + a.len() + i] == b[i] by {
            assert((a + b)[a.len() + i] == b[i]);
            assert(s[pos + (a.len() + i)] == (a + b)[a.len() + i]);
        }
    }
}

/// Where an identifier stands and no word character follows it, its token
/// begins the tokens.
pub proof fn lemma_lex_identifier(s: Seq<char>, pos: int, name: Seq<char>)
    requires
        is_identifier(name),
        stands_at(s, pos, name),
        pos + name.len() == s.len() || !is_word(s[pos + name.len()]),
    ensures
        lex_from(s, pos) == seq![Lexeme { kind: TokenKind::Identifier, text: name, start: pos }]
            + lex_from(s, pos + name.len()),
{
    lemma_stands_at(s, pos, name);
    assert(s[pos + 0] == name[0]);
    assert forall|i: int| pos + 1 <= i < pos + name.len() implies is_word(#[trigger] s[i]) by {
        assert(s[pos + (i - pos)] == name[i - pos]);
    }
    lemma_word_end_is(s, pos + 1, pos + name.len());
}

/// Where a number stands and no digit follows it, its token begins the
/// tokens.
pub proof fn lemma_lex_number(s: Seq<char>, pos: int, text: Seq<char>)
    requires
        is_number(text),
        stands_at(s, pos, text),
        pos + text.len() == s.len() || !is_digit(s[pos + text.len()]),
    ensures
        lex_from(s, pos) == seq![Lexeme { kind: TokenKind::Number, text, start: pos }] + lex_from(
            s,
            pos + text.len(),
        ),
{
    lemma_stands_at(s, pos, text);
    assert(s[pos + 0] == text[0]);
    assert forall|i: int| pos + 1 <= i < pos + text.len() implies is_digit(#[trigger] s[i]) by {
        assert(s[pos + (i - pos)] == text[i - pos]);
    }
    lemma_digits_end_is(s, pos + 1, pos + text.len());
}

/// A mark is a character that is a token by itself.
pub open spec fn is_mark(c: char) -> bool {
    c == ',' || c == '(' || c == ')' || c == '[' || c == ']' || c == '=' || c == '\n'
}

/// Where a mark stands, its token begins the tokens.
pub proof fn lemma_lex_mark(s: Seq<char>, pos: int)
    requires
        0 <= pos < s.len(),
        is_mark(s[pos]),
    ensures
        lex_from(s, pos) == seq![
            Lexeme { kind: kind_of(s[pos]), text: s.subrange(pos, pos + 1), start: pos },
        ] + lex_from(s, pos + 1),
        head(lex_from(s, pos)).kind == kind_of(s[pos]),
        lex_from(s, pos).skip(1) == lex_from(s, pos + 1),
{
    assert(lex_from(s, pos).skip(1) =~= lex_from(s, pos + 1));
}

/// The canonical texts of a list of parameters, from its first parameter on.
pub proof fn lemma_render_params_front(list: Seq<ParamTree>)
    requires
        list.len() >= 2,
    ensures
        render_params(list) == render_param(list[0]) + seq![','] + render_params(list.skip(1)),
    decreases list.len(),
{
    let init = list.drop_last();
    let tail = list.skip(1);
    assert(tail.last() == list.last());
    assert(render_params(list) == render_params(init) + seq![','] + render_param(list.last()));
    if list.len() == 2 {
        assert(init[0] == list[0]);
        assert(tail[0] == list[1]);
        assert(render_params(init) == render_param(init[0]));
        assert(render_params(tail) == render_param(tail[0]));
    } else {
        lemma_render_params_front(init);
        assert(init[0] == list[0]);
        assert(init.skip(1) =~= tail.drop_last());
        assert(render_params(tail) == render_params(tail.drop_last()) + seq![','] + render_param(
            tail.last(),
        ));
        assert(render_params(list) =~= render_param(list[0]) + seq![','] + render_params(tail));
    }
}

/// Where the canonical text of a valid key expression stands and a key
/// expression can end behind it, the tokens from there on parse to the key
/// expression and leave the tokens behind its text.
pub proof fn lemma_key_parses(s: Seq<char>, pos: int, k: KeyTree)
    requires
        key_is_valid(k),
        stands_at(s, pos, render_key(k)),
        key_ends_at(s, pos + render_key(k).len()),
    ensures
        key(lex_from(s, pos)) == Ok::<Parse<KeyTree>, Fault>(
            Parse {
                value: k,
                rest: lex_from(s, pos + render_key(k).len()),
                also: also_after_key(k),
            },
        ),
        head(lex_from(s, pos)).kind == TokenKind::Identifier,
    decreases k, 0nat,
{
    let t = lex_from(s, pos);
    let end = pos + render_key(k).len();
    match k {
        KeyTree::KeyCode(name) => {
            lemma_lex_identifier(s, pos, name);
            assert(t.skip(1) =~= lex_from(s, end));
        },
        KeyTree::FunctionCall(name, list) => {
            let inner = render_params(list);
            let open = pos + name.len();
            let close = open + 1 + inner.len();
            assert(render_key(k) =~= name + (seq!['('] + (inner + seq![')'])));
            lemma_parts_stand(s, pos, name, seq!['('] + (inner + seq![')']));
            lemma_parts_stand(s, open, seq!['('], inner + seq![')']);
            lemma_parts_stand(s, open + 1, inner, seq![')']);
            lemma_stands_at(s, open, seq!['(']);
            lemma_stands_at(s, close, seq![')']);
            assert(s[open + 0] == '(');
            assert(s[close + 0] == ')');
            lemma_lex_identifier(s, pos, name);
            lemma_lex_mark(s, open);
            lemma_lex_mark(s, close);
            assert(t.skip(1) =~= lex_from(s, open));
            assert(t.skip(2) =~= lex_from(s, open + 1));
            lemma_params_parse(s, open + 1, list, Seq::empty());
            assert(Seq::<ParamTree>::empty() + list =~= list);
            assert(lex_from(s, close).skip(1) =~= lex_from(s, close + 1));
        },
    }
}

/// Where the canonical text of a valid parameter stands, closed by a comma
/// or a closing parenthesis, the tokens from there on parse to the
/// parameter and leave the tokens behind its text.
pub proof fn lemma_param_parses(s: Seq<char>, pos: int, p: ParamTree)
    requires
        param_is_valid(p),
        stands_at(s, pos, render_param(p)),
        closes_at(s, pos + render_param(p).len()),
    ensures
        param(lex_from(s, pos)) == Ok::<Parse<ParamTree>, Fault>(
            Parse {
                value: p,
                rest: lex_from(s, pos + render_param(p).len()),
                also: also_after_param(p),
            },
        ),
    decreases p, 1nat,
{
    let t = lex_from(s, pos);
    match p {
        ParamTree::Literal(text) => {
            lemma_lex_number(s, pos, text);
            assert(t.skip(1) =~= lex_from(s, pos + text.len()));
        },
        ParamTree::Key(k) => {
            lemma_closed_key_ends(s, pos + render_key(k).len());
            lemma_key_parses(s, pos, k);
        },
    }
}

/// Where the canonical text of a list of valid parameters stands, closed by
/// a closing parenthesis, the tokens from there on parse to the parameters,
/// behind those that are `done`, and leave the tokens behind the text.
pub proof fn lemma_params_parse(s: Seq<char>, pos: int, list: Seq<ParamTree>, done: Seq<ParamTree>)
    requires
        list.len() > 0,
        forall|i: int| 0 <= i < list.len() ==> param_is_valid(#[trigger] list[i]),
        stands_at(s, pos, render_params(list)),
        pos + render_params(list).len() < s.len(),
        s[pos + render_params(list).len()] == ')',
    ensures
        params(lex_from(s, pos), done) == Ok::<Parse<Seq<ParamTree>>, Fault>(
            Parse {
                value: done + list,
                rest: lex_from(s, pos + render_params(list).len()),
                also: also_after_param(list.last()).with(TokenKind::Comma),
            },
        ),
    decreases list, 2nat,
{
    let first = list[0];
    let text = render_param(first);
    let end = pos + text.len();
    assert(param_is_valid(first));
    if list.len() == 1 {
        lemma_param_parses(s, pos, first);
        lemma_lex_mark(s, end);
        assert(done + list =~= done.push(first));
    } else {
        let tail = list.skip(1);
        lemma_render_params_front(list);
        assert(render_params(list) =~= text + (seq![','] + render_params(tail)));
        lemma_parts_stand(s, pos, text, seq![','] + render_params(tail));
        lemma_parts_stand(s, end, seq![','], render_params(tail));
        lemma_stands_at(s, end, seq![',']);
        assert(s[end + 0] == ',');
        lemma_param_parses(s, pos, first);
        lemma_lex_mark(s, end);
        assert(lex_from(s, end).skip(1) =~= lex_from(s, end + 1));
        lemma_param_advances(lex_from(s, pos));
        assert forall|i: int| 0 <= i < tail.len() implies param_is_valid(#[trigger] tail[i]) by {
            assert(tail[i] == list[i + 1]);
        }
        assert(decreases_to!(list => tail)) by {
            vstd::seq::axiom_seq_subrange_decreases(list, 1, list.len() as int);
        }
        lemma_params_parse(s, end + 1, tail, done.push(first));
        assert(done.push(first) + tail =~= done + list);
        assert(tail.last() == list.last());
    }
}

/// Round trip: the canonical text of a valid key expression parses to that
/// key expression.
pub proof fn lemma_render_then_parse(k: KeyTree)
    requires
        key_is_valid(k),
    ensures
        key_of(render_key(k)) == Ok::<KeyTree, Fault>(k),
{
    let s = render_key(k);
    assert(s.subrange(0, s.len() as int) =~= s);
    lemma_key_parses(s, 0, k);
}

/// A key expression that was parsed from a text is valid.
pub proof fn lemma_parsed_is_valid(s: Seq<char>)
    ensures
        key_of(s) matches Ok(k) ==> key_is_valid(k),
{
    lemma_lex_is_valid(s, 0);
    lemma_skip_breaks(lex(s));
    lemma_end_is_valid(skip_breaks(lex(s)), lex(s));
    lemma_parsed_key_is_valid(skip_breaks(lex(s)));
}

/// Round-trip stability of rendering: where a text parses to a key
/// expression, the canonical text of that key expression parses to the same
/// key expression again, and so reduces to the same text again.
pub proof fn lemma_canonical_text_is_stable(s: Seq<char>)
    ensures
        key_of(s) matches Ok(k) ==> key_of(render_key(k)) == Ok::<KeyTree, Fault>(k),
{
    lemma_parsed_is_valid(s);
    if let Ok(k) = key_of(s) {
        lemma_render_then_parse(k);
    }
}

} // verus!
