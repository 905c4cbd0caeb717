//! What is printed parses again: the text of a keymap that was built from a
//! program is a sentence of the grammar, and it holds that program.

use crate::ast::{KeyTree, LayerBlockTree};
use crate::grammar::{
    blocks, expect, head, key, layer_block, lemma_end_of_end, lemma_expect_advances,
    lemma_key_advances, lemma_layer_block_advances, lemma_line_advances, lemma_skip_breaks,
    lemma_skip_is_end, line, program_of, rows, skip_breaks, Fault,
};
use crate::grid::{
    keys_of, lemma_keys_of_concat, lemma_normalized_keeps_keys, lemma_normalized_rectangular,
};
use crate::keymap::{keymap_of, row_texts, LayerView};
use crate::options::PrintOptions;
use crate::printer::{
    cells_text, centre_of, display_width, keymap_text, layer_text, layers_text, only_gaps_after,
    printed_cell, row_text, rows_text,
};
use crate::reduce::render_key;
use crate::roundtrip::{
    is_identifier, is_number, key_ends_at, key_is_valid, lemma_end_is_valid, lemma_key_parses,
    lemma_lex_identifier, lemma_lex_is_valid, lemma_lex_mark, lemma_lex_number,
    lemma_parsed_key_is_valid,
    lemma_parts_stand, lemma_stands_at, stands_at, tokens_are_valid,
};
use crate::text::blanks;
use crate::token::{is_word, lex, lex_from, Lexeme, TokenKind};
use vstd::prelude::*;

verus! {

/// Blanks yield no token.
pub proof fn lemma_lex_blanks(s: Seq<char>, pos: int, n: nat)
    requires
        stands_at(s, pos, blanks(n)),
    ensures
        lex_from(s, pos) == lex_from(s, pos + n),
    decreases n,
{
    if n > 0 {
        lemma_stands_at(s, pos, blanks(n));
        assert(s[pos + 0] == ' ');
        assert(blanks(n) =~= blanks(1) + blanks((n - 1) as nat));
        lemma_parts_stand(s, pos, blanks(1), blanks((n - 1) as nat));
        lemma_lex_blanks(s, pos + 1, (n - 1) as nat);
    }
}

/// The cells of a row from column `from` to column `to`, from the first on.
pub proof fn lemma_cells_text_front(
    layers: Seq<LayerView>,
    layer: int,
    row: int,
    ops: PrintOptions,
    from: int,
    to: int,
)
    requires
        from < to,
    ensures
        cells_text(layers, layer, row, ops, from, to) == printed_cell(layers, layer, row, from, ops)
            + cells_text(layers, layer, row, ops, from + 1, to),
    decreases to - from,
{
    if from + 1 < to {
        lemma_cells_text_front(layers, layer, row, ops, from, to - 1);
        assert(cells_text(layers, layer, row, ops, from, to) =~= printed_cell(
            layers,
            layer,
            row,
            from,
            ops,
        ) + cells_text(layers, layer, row, ops, from + 1, to));
    } else {
        assert(cells_text(layers, layer, row, ops, from, from) =~= Seq::<char>::empty());
        assert(cells_text(layers, layer, row, ops, to, to) =~= Seq::<char>::empty());
        assert(cells_text(layers, layer, row, ops, from, to) =~= printed_cell(
            layers,
            layer,
            row,
            from,
            ops,
        ) + cells_text(layers, layer, row, ops, from + 1, to));
    }
}

/// The number of blanks of the gutter behind column `col`: `split_space`
/// behind the last column of the left half, none behind any other.
pub open spec fn gutter_behind(
    layers: Seq<LayerView>,
    layer: int,
    row: int,
    col: int,
    ops: PrintOptions,
) -> nat {
    if col + 1 == centre_of(layers, layer, row) {
        ops.split_space as nat
    } else {
        0
    }
}

/// The text of a row from column `col` on, the line break at its end
/// included.
pub open spec fn row_tail(layers: Seq<LayerView>, layer: int, row: int, ops: PrintOptions, col: int) -> Seq<
    char,
>
    decreases layers[layer].keys[row].len() - col,
{
    if col >= layers[layer].keys[row].len() {
        seq!['\n']
    } else {
        printed_cell(layers, layer, row, col, ops) + blanks(
            gutter_behind(layers, layer, row, col, ops),
        ) + row_tail(layers, layer, row, ops, col + 1)
    }
}

/// The text of a row from column `col` on, by the halves of the row.
pub proof fn lemma_row_tail_by_halves(
    layers: Seq<LayerView>,
    layer: int,
    row: int,
    ops: PrintOptions,
    col: int,
)
    requires
        0 <= col <= layers[layer].keys[row].len(),
    ensures
        row_tail(layers, layer, row, ops, col) == if col < centre_of(layers, layer, row) {
            cells_text(layers, layer, row, ops, col, centre_of(layers, layer, row)) + blanks(
                ops.split_space as nat,
            ) + cells_text(
                layers,
                layer,
                row,
                ops,
                centre_of(layers, layer, row),
                layers[layer].keys[row].len() as int,
            ) + seq!['\n']
        } else {
            cells_text(layers, layer, row, ops, col, layers[layer].keys[row].len() as int) + seq![
                '\n',
            ]
        },
    decreases layers[layer].keys[row].len() - col,
{
    let len = layers[layer].keys[row].len() as int;
    let centre = centre_of(layers, layer, row);
    let cell = printed_cell(layers, layer, row, col, ops);
    if col < len {
        lemma_row_tail_by_halves(layers, layer, row, ops, col + 1);
        if col < centre {
            lemma_cells_text_front(layers, layer, row, ops, col, centre);
            if col + 1 == centre {
                assert(row_tail(layers, layer, row, ops, col) =~= cell + blanks(
                    ops.split_space as nat,
                ) + cells_text(layers, layer, row, ops, centre, len) + seq!['\n']);
            } else {
                assert(blanks(0) =~= Seq::<char>::empty());
                assert(row_tail(layers, layer, row, ops, col) =~= cell + cells_text(
                    layers,
                    layer,
                    row,
                    ops,
                    col + 1,
                    centre,
                ) + blanks(ops.split_space as nat) + cells_text(
                    layers,
                    layer,
                    row,
                    ops,
                    centre,
                    len,
                ) + seq!['\n']);
            }
        } else {
            lemma_cells_text_front(layers, layer, row, ops, col, len);
            assert(blanks(0) =~= Seq::<char>::empty());
            assert(row_tail(layers, layer, row, ops, col) =~= cell + cells_text(
                layers,
                layer,
                row,
                ops,
                col + 1,
                len,
            ) + seq!['\n']);
        }
    } else {
        assert(row_tail(layers, layer, row, ops, col) =~= cells_text(
            layers,
            layer,
            row,
            ops,
            col,
            len,
        ) + seq!['\n']);
    }
}

/// The text of a row is the text of the row from its first column on.
pub proof fn lemma_row_text_is_tail(layers: Seq<LayerView>, layer: int, row: int, ops: PrintOptions)
    ensures
        row_text(layers, layer, row, ops) == row_tail(layers, layer, row, ops, 0),
{
    lemma_row_tail_by_halves(layers, layer, row, ops, 0);
}

/// The texts of the keys of a row from column `col` on, in order.
pub open spec fn texts_from(row: Seq<Option<Seq<char>>>, col: int) -> Seq<Seq<char>>
    decreases row.len() - col,
{
    if col >= row.len() || col < 0 {
        Seq::empty()
    } else {
        match row[col] {
            Some(text) => seq![text] + texts_from(row, col + 1),
            None => texts_from(row, col + 1),
        }
    }
}

/// Where no key stands from column `col` on, none stands behind any later
/// column.
pub proof fn lemma_no_texts_only_gaps(row: Seq<Option<Seq<char>>>, col: int)
    requires
        0 <= col <= row.len(),
    ensures
        texts_from(row, col).len() == 0 <==> forall|j: int| col <= j < row.len() ==> row[j] is None,
    decreases row.len() - col,
{
    if col < row.len() {
        lemma_no_texts_only_gaps(row, col + 1);
        if texts_from(row, col).len() == 0 {
            assert forall|j: int| col <= j < row.len() implies row[j] is None by {
                if j > col {
                }
            }
        } else if row[col] is None {
        }
    }
}

/// Where no key stands from column `col` on, the text of the row from there
/// on begins with a blank or is the line break alone.
pub proof fn lemma_gap_tail_begins(
    layers: Seq<LayerView>,
    layer: int,
    row: int,
    ops: PrintOptions,
    col: int,
)
    requires
        0 <= col <= layers[layer].keys[row].len(),
        texts_from(layers[layer].keys[row], col).len() == 0,
    ensures
        row_tail(layers, layer, row, ops, col).len() >= 1,
        row_tail(layers, layer, row, ops, col)[0] == ' ' || row_tail(layers, layer, row, ops, col)[0]
            == '\n',
{
    if col < layers[layer].keys[row].len() {
        let width = display_width(layers, layer, col, ops.align_layers);
        assert(layers[layer].keys[row][col] is None);
        assert(printed_cell(layers, layer, row, col, ops) == blanks(width + 2));
        assert(row_tail(layers, layer, row, ops, col)[0] == blanks(width + 2)[0]);
    }
}

/// Where no key stands from column `col` on, the text of the row from there
/// on yields no token before the line break at its end.
pub proof fn lemma_gaps_to_line_end(
    s: Seq<char>,
    pos: int,
    layers: Seq<LayerView>,
    layer: int,
    row: int,
    ops: PrintOptions,
    col: int,
)
    requires
        0 <= col <= layers[layer].keys[row].len(),
        texts_from(layers[layer].keys[row], col).len() == 0,
        stands_at(s, pos, row_tail(layers, layer, row, ops, col)),
    ensures
        row_tail(layers, layer, row, ops, col).len() >= 1,
        lex_from(s, pos) == lex_from(s, pos + row_tail(layers, layer, row, ops, col).len() - 1),
        s[pos + row_tail(layers, layer, row, ops, col).len() - 1] == '\n',
    decreases layers[layer].keys[row].len() - col,
{
    let tail = row_tail(layers, layer, row, ops, col);
    if col < layers[layer].keys[row].len() {
        let width = display_width(layers, layer, col, ops.align_layers);
        let gutter = gutter_behind(layers, layer, row, col, ops);
        let next = row_tail(layers, layer, row, ops, col + 1);
        assert(layers[layer].keys[row][col] is None);
        assert(printed_cell(layers, layer, row, col, ops) == blanks(width + 2));
        assert(tail =~= blanks(width + 2) + (blanks(gutter) + next));
        lemma_parts_stand(s, pos, blanks(width + 2), blanks(gutter) + next);
        lemma_parts_stand(s, pos + width + 2, blanks(gutter), next);
        lemma_lex_blanks(s, pos, width + 2);
        lemma_lex_blanks(s, pos + width + 2, gutter);
        lemma_gaps_to_line_end(s, pos + width + 2 + gutter, layers, layer, row, ops, col + 1);
    } else {
        lemma_stands_at(s, pos, tail);
        assert(s[pos + 0] == tail[0]);
    }
}

/// The number of blanks that bring the key in a cell to the width of its
/// column and one more.
pub open spec fn pad_of(layers: Seq<LayerView>, layer: int, row: int, col: int, ops: PrintOptions) -> nat {
    let width = display_width(layers, layer, col, ops.align_layers);
    let len = layers[layer].keys[row][col]->0.len();
    if width + 1 > len {
        (width + 1 - len) as nat
    } else {
        0
    }
}

/// The key in a cell stands at the left of its cell.
pub open spec fn at_left(layers: Seq<LayerView>, layer: int, row: int, col: int, ops: PrintOptions) -> bool {
    col >= layers[layer].keys[row].len() / 2 || ops.left_align
}

/// The number of blanks before the key in a cell.
pub open spec fn lead_of(layers: Seq<LayerView>, layer: int, row: int, col: int, ops: PrintOptions) -> nat {
    if at_left(layers, layer, row, col, ops) {
        0
    } else {
        pad_of(layers, layer, row, col, ops)
    }
}

/// The number of blanks behind the key in a cell.
pub open spec fn trail_of(layers: Seq<LayerView>, layer: int, row: int, col: int, ops: PrintOptions) -> nat {
    if at_left(layers, layer, row, col, ops) {
        pad_of(layers, layer, row, col, ops)
    } else {
        0
    }
}

/// The comma that ends the cell of a key, where it has one.
pub open spec fn mark_of(layers: Seq<LayerView>, layer: int, row: int, col: int) -> Seq<char> {
    if row + 1 == layers[layer].keys.len() && only_gaps_after(layers[layer].keys[row], col) {
        Seq::empty()
    } else {
        seq![',']
    }
}

/// The parts of the text of a row from the cell of a key on: blanks, the
/// key, blanks, the comma where there is one, the gutter where there is
/// one, and the text of the row from the next column on.
pub proof fn lemma_key_cell_stands(
    s: Seq<char>,
    pos: int,
    layers: Seq<LayerView>,
    layer: int,
    row: int,
    ops: PrintOptions,
    col: int,
)
    requires
        0 <= col < layers[layer].keys[row].len(),
        layers[layer].keys[row][col] is Some,
        stands_at(s, pos, row_tail(layers, layer, row, ops, col)),
    ensures
        ({
            let text = layers[layer].keys[row][col]->0;
            let lead = lead_of(layers, layer, row, col, ops);
            let trail = trail_of(layers, layer, row, col, ops);
            let mark = mark_of(layers, layer, row, col);
            let gutter = gutter_behind(layers, layer, row, col, ops);
            let next = row_tail(layers, layer, row, ops, col + 1);
            &&& stands_at(s, pos, blanks(lead))
            &&& stands_at(s, pos + lead, text)
            &&& stands_at(s, pos + lead + text.len(), blanks(trail))
            &&& stands_at(s, pos + lead + text.len() + trail, mark)
            &&& stands_at(s, pos + lead + text.len() + trail + mark.len(), blanks(gutter))
            &&& stands_at(s, pos + lead + text.len() + trail + mark.len() + gutter, next)
            &&& row_tail(layers, layer, row, ops, col).len() == lead + text.len() + trail
                + mark.len() + gutter + next.len()
        }),
{
    let text = layers[layer].keys[row][col]->0;
    let lead = lead_of(layers, layer, row, col, ops);
    let trail = trail_of(layers, layer, row, col, ops);
    let mark = mark_of(layers, layer, row, col);
    let gutter = gutter_behind(layers, layer, row, col, ops);
    let next = row_tail(layers, layer, row, ops, col + 1);
    let tail = row_tail(layers, layer, row, ops, col);
    assert(blanks(0) =~= Seq::<char>::empty());
    assert(printed_cell(layers, layer, row, col, ops) =~= blanks(lead) + text + blanks(trail) + mark);
    assert(tail =~= blanks(lead) + (text + (blanks(trail) + (mark + (blanks(gutter) + next)))));
    lemma_parts_stand(s, pos, blanks(lead), text + (blanks(trail) + (mark + (blanks(gutter) + next))));
    lemma_parts_stand(s, pos + lead, text, blanks(trail) + (mark + (blanks(gutter) + next)));
    lemma_parts_stand(s, pos + lead + text.len(), blanks(trail), mark + (blanks(gutter) + next));
    lemma_parts_stand(s, pos + lead + text.len() + trail, mark, blanks(gutter) + next);
    lemma_parts_stand(s, pos + lead + text.len() + trail + mark.len(), blanks(gutter), next);
}

/// The parts of the text of a row from a gap on: the blanks of the gap and
/// of the gutter, and the text of the row from the next column on.
pub proof fn lemma_gap_cell_stands(
    s: Seq<char>,
    pos: int,
    layers: Seq<LayerView>,
    layer: int,
    row: int,
    ops: PrintOptions,
    col: int,
)
    requires
        0 <= col < layers[layer].keys[row].len(),
        layers[layer].keys[row][col] is None,
        stands_at(s, pos, row_tail(layers, layer, row, ops, col)),
    ensures
        ({
            let blank = display_width(layers, layer, col, ops.align_layers) + 2 + gutter_behind(
                layers,
                layer,
                row,
                col,
                ops,
            );
            let next = row_tail(layers, layer, row, ops, col + 1);
            &&& lex_from(s, pos) == lex_from(s, pos + blank)
            &&& stands_at(s, pos + blank, next)
            &&& row_tail(layers, layer, row, ops, col).len() == blank + next.len()
        }),
{
    let width = display_width(layers, layer, col, ops.align_layers);
    let gutter = gutter_behind(layers, layer, row, col, ops);
    let next = row_tail(layers, layer, row, ops, col + 1);
    let tail = row_tail(layers, layer, row, ops, col);
    assert(printed_cell(layers, layer, row, col, ops) == blanks(width + 2));
    assert(tail =~= blanks(width + 2) + (blanks(gutter) + next));
    lemma_parts_stand(s, pos, blanks(width + 2), blanks(gutter) + next);
    lemma_parts_stand(s, pos + width + 2, blanks(gutter), next);
    lemma_lex_blanks(s, pos, width + 2);
    lemma_lex_blanks(s, pos + width + 2, gutter);
}

/// Where the canonical text of a valid key stands before blanks and a
/// comma, the tokens from there on parse to the key and leave the comma and
/// what follows it.
pub proof fn lemma_key_before_comma(s: Seq<char>, pos: int, k: KeyTree, trail: nat)
    requires
        key_is_valid(k),
        stands_at(s, pos, render_key(k)),
        stands_at(s, pos + render_key(k).len(), blanks(trail)),
        stands_at(s, pos + render_key(k).len() + trail, seq![',']),
    ensures
        head(lex_from(s, pos)).kind == TokenKind::Identifier,
        key(lex_from(s, pos)) matches Ok(parsed) && parsed.value == k && parsed.rest == lex_from(
            s,
            pos + render_key(k).len(),
        ),
        head(lex_from(s, pos + render_key(k).len())).kind == TokenKind::Comma,
        lex_from(s, pos + render_key(k).len()).skip(1) == lex_from(
            s,
            pos + render_key(k).len() + trail + 1,
        ),
{
    let at_trail = pos + render_key(k).len();
    let at_mark = at_trail + trail;
    lemma_stands_at(s, at_mark, seq![',']);
    assert(s[at_mark + 0] == ',');
    lemma_lex_mark(s, at_mark);
    lemma_lex_blanks(s, at_trail, trail);
    if trail > 0 {
        lemma_stands_at(s, at_trail, blanks(trail));
        assert(s[at_trail + 0] == ' ');
    }
    assert(key_ends_at(s, at_trail));
    lemma_key_parses(s, pos, k);
}

/// Where the canonical text of a valid key stands before blanks and a line
/// break, the tokens from there on parse to the key and leave the line
/// break and what follows it.
pub proof fn lemma_key_before_break(s: Seq<char>, pos: int, k: KeyTree, at_break: int)
    requires
        key_is_valid(k),
        stands_at(s, pos, render_key(k)),
        pos + render_key(k).len() <= at_break < s.len(),
        s[at_break] == '\n',
        lex_from(s, pos + render_key(k).len()) == lex_from(s, at_break),
        !is_word(s[pos + render_key(k).len()]),
    ensures
        head(lex_from(s, pos)).kind == TokenKind::Identifier,
        key(lex_from(s, pos)) matches Ok(parsed) && parsed.value == k && parsed.rest == lex_from(
            s,
            at_break,
        ),
        head(lex_from(s, at_break)).kind == TokenKind::LineBreak,
{
    lemma_lex_mark(s, at_break);
    assert(key_ends_at(s, pos + render_key(k).len()));
    lemma_key_parses(s, pos, k);
}

/// The keys `trees` stand in the cells of a row from column `col` on: the
/// texts of those cells are the canonical texts of the keys, in order.
pub open spec fn row_holds(row: Seq<Option<Seq<char>>>, col: int, trees: Seq<KeyTree>) -> bool {
    texts_from(row, col) == Seq::new(trees.len(), |i: int| render_key(trees[i]))
}

/// Where the cell in column `col` holds the first of the keys `trees`, the
/// cells from the next column on hold the others.
pub proof fn lemma_row_holds_others(row: Seq<Option<Seq<char>>>, col: int, trees: Seq<KeyTree>)
    requires
        0 <= col < row.len(),
        row[col] is Some,
        row_holds(row, col, trees),
    ensures
        trees.len() >= 1,
        row[col]->0 == render_key(trees[0]),
        row_holds(row, col + 1, trees.skip(1)),
        only_gaps_after(row, col) <==> trees.len() == 1,
{
    let texts = Seq::new(trees.len(), |i: int| render_key(trees[i]));
    let others = trees.skip(1);
    assert(texts_from(row, col) == seq![row[col]->0] + texts_from(row, col + 1));
    assert(texts_from(row, col).len() >= 1);
    assert(texts[0] == render_key(trees[0]));
    assert(texts_from(row, col)[0] == row[col]->0);
    assert(texts_from(row, col + 1) =~= texts.skip(1));
    assert(texts.skip(1) =~= Seq::new(others.len(), |i: int| render_key(others[i])));
    lemma_no_texts_only_gaps(row, col + 1);
}

/// Where the text of a row from column `col` on stands, and valid keys
/// stand in the cells from there on, one at least, the tokens from there on
/// parse to a row of those keys, behind those that are `done`, and leave the
/// tokens from the line break on.
pub proof fn lemma_row_parses(
    s: Seq<char>,
    pos: int,
    layers: Seq<LayerView>,
    layer: int,
    row: int,
    ops: PrintOptions,
    col: int,
    trees: Seq<KeyTree>,
    done: Seq<KeyTree>,
)
    requires
        0 <= col <= layers[layer].keys[row].len(),
        stands_at(s, pos, row_tail(layers, layer, row, ops, col)),
        trees.len() >= 1,
        forall|i: int| 0 <= i < trees.len() ==> key_is_valid(#[trigger] trees[i]),
        row_holds(layers[layer].keys[row], col, trees),
    ensures
        head(lex_from(s, pos)).kind == TokenKind::Identifier,
        line(lex_from(s, pos), done) matches Ok(l) && l.value == done + trees && l.rest == lex_from(
            s,
            pos + row_tail(layers, layer, row, ops, col).len() - 1,
        ),
        s[pos + row_tail(layers, layer, row, ops, col).len() - 1] == '\n',
    decreases layers[layer].keys[row].len() - col,
{
    let cells = layers[layer].keys[row];
    assert(col < cells.len()) by {
        if col >= cells.len() {
            assert(texts_from(cells, col).len() == 0);
        }
    }
    if cells[col] is None {
        lemma_gap_cell_stands(s, pos, layers, layer, row, ops, col);
        let blank = display_width(layers, layer, col, ops.align_layers) + 2 + gutter_behind(
            layers,
            layer,
            row,
            col,
            ops,
        );
        lemma_row_parses(s, pos + blank, layers, layer, row, ops, col + 1, trees, done);
    } else {
        let text = cells[col]->0;
        let first = trees[0];
        let others = trees.skip(1);
        let lead = lead_of(layers, layer, row, col, ops);
        let trail = trail_of(layers, layer, row, col, ops);
        let mark = mark_of(layers, layer, row, col);
        let gutter = gutter_behind(layers, layer, row, col, ops);
        let next = row_tail(layers, layer, row, ops, col + 1);
        let at_key = pos + lead;
        let at_trail = at_key + text.len();
        let at_gutter = at_trail + trail + mark.len();
        let at_next = at_gutter + gutter;
        lemma_row_holds_others(cells, col, trees);
        lemma_key_cell_stands(s, pos, layers, layer, row, ops, col);
        lemma_lex_blanks(s, pos, lead);
        lemma_lex_blanks(s, at_gutter, gutter);
        lemma_key_advances(lex_from(s, pos));
        if others.len() > 0 {
            lemma_key_before_comma(s, at_key, first, trail);
            lemma_row_parses(s, at_next, layers, layer, row, ops, col + 1, others, done.push(first));
            assert(done.push(first) + others =~= done + trees);
        } else {
            lemma_gaps_to_line_end(s, at_next, layers, layer, row, ops, col + 1);
            lemma_lex_mark(s, at_next + next.len() - 1);
            assert(done.push(first) =~= done + trees);
            if mark.len() > 0 {
                lemma_key_before_comma(s, at_key, first, trail);
            } else {
                lemma_gap_tail_begins(layers, layer, row, ops, col + 1);
                lemma_lex_blanks(s, at_trail, trail);
                assert(!is_word(s[at_trail])) by {
                    if trail > 0 {
                        lemma_stands_at(s, at_trail, blanks(trail));
                        assert(s[at_trail + 0] == ' ');
                    } else if gutter > 0 {
                        lemma_stands_at(s, at_gutter, blanks(gutter));
                        assert(s[at_gutter + 0] == ' ');
                    } else {
                        lemma_stands_at(s, at_next, next);
                        assert(s[at_next + 0] == next[0]);
                    }
                }
                lemma_key_before_break(s, at_key, first, at_next + next.len() - 1);
            }
        }
    }
}

/// The texts of the rows of a layer from row `row` on.
pub open spec fn rows_tail(layers: Seq<LayerView>, layer: int, ops: PrintOptions, row: int) -> Seq<
    char,
>
    decreases layers[layer].keys.len() - row,
{
    if row >= layers[layer].keys.len() {
        Seq::empty()
    } else {
        row_text(layers, layer, row, ops) + rows_tail(layers, layer, ops, row + 1)
    }
}

/// The texts of all rows of a layer are those of its first rows and then
/// those of the rows from there on.
pub proof fn lemma_rows_text_split(layers: Seq<LayerView>, layer: int, ops: PrintOptions, row: int)
    requires
        0 <= row <= layers[layer].keys.len(),
    ensures
        rows_text(layers, layer, ops, layers[layer].keys.len() as int) == rows_text(
            layers,
            layer,
            ops,
            row,
        ) + rows_tail(layers, layer, ops, row),
    decreases layers[layer].keys.len() - row,
{
    let all = rows_text(layers, layer, ops, layers[layer].keys.len() as int);
    if row < layers[layer].keys.len() {
        lemma_rows_text_split(layers, layer, ops, row + 1);
        assert(all =~= rows_text(layers, layer, ops, row) + rows_tail(layers, layer, ops, row));
    } else {
        assert(all =~= rows_text(layers, layer, ops, row) + rows_tail(layers, layer, ops, row));
    }
}

/// The rows `trees` stand in the grid of a layer: it has as many rows, and
/// in each of its rows stand the keys of the row of `trees`, which are
/// valid and one at least.
pub open spec fn grid_holds(grid: Seq<Seq<Option<Seq<char>>>>, trees: Seq<Seq<KeyTree>>) -> bool {
    &&& grid.len() == trees.len()
    &&& forall|r: int|
        0 <= r < trees.len() ==> {
            &&& (#[trigger] trees[r]).len() >= 1
            &&& row_holds(grid[r], 0, trees[r])
            &&& forall|i: int| 0 <= i < trees[r].len() ==> key_is_valid(#[trigger] trees[r][i])
        }
}

/// Where the texts of the rows of a layer from row `row` on stand before a
/// closing parenthesis, and valid rows stand in the grid, the tokens from
/// there on parse to those rows, behind those that are `done`, and leave
/// the tokens from the parenthesis on.
pub proof fn lemma_rows_parse(
    s: Seq<char>,
    pos: int,
    layers: Seq<LayerView>,
    layer: int,
    ops: PrintOptions,
    row: int,
    trees: Seq<Seq<KeyTree>>,
    done: Seq<Seq<KeyTree>>,
)
    requires
        0 <= row < layers[layer].keys.len(),
        grid_holds(layers[layer].keys, trees),
        stands_at(s, pos, rows_tail(layers, layer, ops, row)),
        pos + rows_tail(layers, layer, ops, row).len() < s.len(),
        s[pos + rows_tail(layers, layer, ops, row).len()] == ')',
    ensures
        head(lex_from(s, pos)).kind == TokenKind::Identifier,
        rows(lex_from(s, pos), done) matches Ok(x) && x.value == done + trees.subrange(
            row,
            trees.len() as int,
        ) && x.rest == lex_from(s, pos + rows_tail(layers, layer, ops, row).len()),
    decreases layers[layer].keys.len() - row,
{
    let count = layers[layer].keys.len() as int;
    let this = row_text(layers, layer, row, ops);
    let others = rows_tail(layers, layer, ops, row + 1);
    let t = lex_from(s, pos);
    let at_break = pos + this.len() - 1;
    lemma_row_text_is_tail(layers, layer, row, ops);
    lemma_parts_stand(s, pos, this, others);
    assert(trees[row].len() >= 1);
    lemma_row_parses(s, pos, layers, layer, row, ops, 0, trees[row], Seq::empty());
    assert(Seq::<KeyTree>::empty() + trees[row] =~= trees[row]);
    lemma_lex_mark(s, at_break);
    lemma_line_advances(t, Seq::empty());
    let behind = lex_from(s, at_break + 1);
    if row + 1 < count {
        lemma_rows_parse(s, at_break + 1, layers, layer, ops, row + 1, trees, done.push(trees[row]));
        assert(skip_breaks(lex_from(s, at_break)) == behind) by {
            assert(skip_breaks(behind) == behind);
        }
        assert(done.push(trees[row]) + trees.subrange(row + 1, count) =~= done + trees.subrange(
            row,
            count,
        ));
    } else {
        assert(others =~= Seq::<char>::empty());
        lemma_lex_mark(s, at_break + 1);
        assert(skip_breaks(lex_from(s, at_break)) == behind) by {
            assert(skip_breaks(behind) == behind);
        }
        assert(done.push(trees[row]) =~= done + trees.subrange(row, count));
    }
}

/// The first line of the block of a layer.
pub open spec fn header_text(num: Seq<char>, name: Seq<char>) -> Seq<char> {
    seq!['['] + num + seq![']', ' ', '=', ' '] + name + seq![' ', '(', '\n']
}

/// The tokens of the first line of the block of a layer, one after the
/// other: the bracket, the label, the bracket, the equals sign, the name,
/// the parenthesis and the line break.
pub proof fn lemma_header_tokens(s: Seq<char>, pos: int, num: Seq<char>, name: Seq<char>)
    requires
        stands_at(s, pos, header_text(num, name)),
        is_identifier(num) || is_number(num),
        is_identifier(name),
    ensures
        ({
            let at_num = pos + 1;
            let at_close = at_num + num.len();
            let at_name = at_close + 4;
            let at_open = at_name + name.len() + 1;
            &&& head(lex_from(s, pos)).kind == TokenKind::OpenBracket
            &&& lex_from(s, pos).skip(1) == lex_from(s, at_num)
            &&& head(lex_from(s, at_num)).kind == TokenKind::Identifier || head(
                lex_from(s, at_num),
            ).kind == TokenKind::Number
            &&& lex_from(s, at_num)[0].text == num
            &&& lex_from(s, at_num).skip(1) == lex_from(s, at_close)
            &&& head(lex_from(s, at_close)).kind == TokenKind::CloseBracket
            &&& lex_from(s, at_close).skip(1) == lex_from(s, at_close + 2)
            &&& head(lex_from(s, at_close + 2)).kind == TokenKind::Equals
            &&& lex_from(s, at_close + 2).skip(1) == lex_from(s, at_name)
            &&& head(lex_from(s, at_name)).kind == TokenKind::Identifier
            &&& lex_from(s, at_name)[0].text == name
            &&& lex_from(s, at_name).skip(1) == lex_from(s, at_open)
            &&& head(lex_from(s, at_open)).kind == TokenKind::OpenParen
            &&& lex_from(s, at_open).skip(1) == lex_from(s, at_open + 1)
            &&& head(lex_from(s, at_open + 1)).kind == TokenKind::LineBreak
            &&& lex_from(s, at_open + 1).skip(1) == lex_from(s, at_open + 2)
            &&& header_text(num, name).len() == num.len() + name.len() + 8
        }),
{
    let at_num = pos + 1;
    let at_close = at_num + num.len();
    let at_name = at_close + 4;
    let at_open = at_name + name.len() + 1;
    let middle = seq![']', ' ', '=', ' '];
    let last = seq![' ', '(', '\n'];
    assert(header_text(num, name) =~= seq!['['] + (num + (middle + (name + last))));
    lemma_parts_stand(s, pos, seq!['['], num + (middle + (name + last)));
    lemma_parts_stand(s, at_num, num, middle + (name + last));
    lemma_parts_stand(s, at_close, middle, name + last);
    lemma_parts_stand(s, at_name, name, last);
    lemma_stands_at(s, pos, seq!['[']);
    lemma_stands_at(s, at_close, middle);
    lemma_stands_at(s, at_name + name.len(), last);
    assert(s[pos + 0] == '[');
    assert(s[at_close + 0] == ']');
    assert(s[at_close + 1] == ' ');
    assert(s[at_close + 2] == '=');
    assert(s[at_close + 3] == ' ');
    assert(s[at_name + name.len() + 0] == ' ');
    assert(s[at_name + name.len() + 1] == '(');
    assert(s[at_name + name.len() + 2] == '\n');
    lemma_lex_mark(s, pos);
    if is_identifier(num) {
        lemma_lex_identifier(s, at_num, num);
    } else {
        lemma_lex_number(s, at_num, num);
    }
    assert(lex_from(s, at_num).skip(1) =~= lex_from(s, at_close));
    lemma_lex_mark(s, at_close);
    assert(lex_from(s, at_close + 1) == lex_from(s, at_close + 2));
    lemma_lex_mark(s, at_close + 2);
    assert(lex_from(s, at_close + 3) == lex_from(s, at_name));
    lemma_lex_identifier(s, at_name, name);
    assert(lex_from(s, at_name).skip(1) =~= lex_from(s, at_name + name.len()));
    assert(lex_from(s, at_name + name.len()) == lex_from(s, at_open));
    lemma_lex_mark(s, at_open);
    lemma_lex_mark(s, at_open + 1);
}

/// Tokens that begin with no line break have none to skip.
pub proof fn lemma_no_breaks_to_skip(t: Seq<Lexeme>)
    requires
        head(t).kind != TokenKind::LineBreak,
    ensures
        skip_breaks(t) == t,
{
}

/// Where the block of a layer stands, of which the label is an identifier
/// or a number and the name an identifier, and valid rows stand in its
/// grid, the tokens from there on parse to the layer block of that label,
/// that name and those rows, and leave the tokens from the comma on that
/// ends the block.
pub proof fn lemma_layer_parses(
    s: Seq<char>,
    pos: int,
    layers: Seq<LayerView>,
    layer: int,
    ops: PrintOptions,
    trees: Seq<Seq<KeyTree>>,
)
    requires
        stands_at(s, pos, layer_text(layers, layer, ops)),
        is_identifier(layers[layer].num) || is_number(layers[layer].num),
        is_identifier(layers[layer].name),
        trees.len() >= 1,
        grid_holds(layers[layer].keys, trees),
    ensures
        layer_text(layers, layer, ops).len() >= 3,
        head(lex_from(s, pos)).kind == TokenKind::OpenBracket,
        layer_block(lex_from(s, pos)) matches Ok(b) && b.value == (LayerBlockTree {
            num: layers[layer].num,
            name: layers[layer].name,
            rows: trees,
        }) && b.rest == lex_from(s, pos + layer_text(layers, layer, ops).len() - 2),
        s[pos + layer_text(layers, layer, ops).len() - 2] == ',',
        s[pos + layer_text(layers, layer, ops).len() - 1] == '\n',
{
    let num = layers[layer].num;
    let name = layers[layer].name;
    let header = header_text(num, name);
    let all_rows = rows_text(layers, layer, ops, layers[layer].keys.len() as int);
    let footer = seq![')', ',', '\n'];
    let at_num = pos + 1;
    let at_close = at_num + num.len();
    let at_name = at_close + 4;
    let at_open = at_name + name.len() + 1;
    let at_rows = at_open + 2;
    let at_end = at_rows + all_rows.len();
    assert(layer_text(layers, layer, ops) =~= header + (all_rows + footer));
    lemma_parts_stand(s, pos, header, all_rows + footer);
    lemma_header_tokens(s, pos, num, name);
    lemma_parts_stand(s, at_rows, all_rows, footer);
    lemma_stands_at(s, at_end, footer);
    assert(s[at_end + 0] == ')');
    assert(s[at_end + 1] == ',');
    assert(s[at_end + 2] == '\n');
    lemma_rows_text_split(layers, layer, ops, 0);
    assert(all_rows =~= rows_tail(layers, layer, ops, 0));
    lemma_rows_parse(s, at_rows, layers, layer, ops, 0, trees, Seq::empty());
    assert(Seq::<Seq<KeyTree>>::empty() + trees.subrange(0, trees.len() as int) =~= trees);
    lemma_lex_mark(s, at_end);
    let t = lex_from(s, pos);
    lemma_no_breaks_to_skip(lex_from(s, at_num));
    lemma_no_breaks_to_skip(lex_from(s, at_close));
    lemma_no_breaks_to_skip(lex_from(s, at_close + 2));
    lemma_no_breaks_to_skip(lex_from(s, at_name));
    lemma_no_breaks_to_skip(lex_from(s, at_open));
    lemma_no_breaks_to_skip(lex_from(s, at_rows));
    assert(skip_breaks(lex_from(s, at_open + 1)) == lex_from(s, at_rows));
    assert(expect(t, TokenKind::OpenBracket) == Ok::<Seq<Lexeme>, Fault>(lex_from(s, at_num)));
    assert(expect(lex_from(s, at_close), TokenKind::CloseBracket) == Ok::<Seq<Lexeme>, Fault>(
        lex_from(s, at_close + 2),
    ));
    assert(expect(lex_from(s, at_close + 2), TokenKind::Equals) == Ok::<Seq<Lexeme>, Fault>(
        lex_from(s, at_name),
    ));
    assert(expect(lex_from(s, at_name), TokenKind::Identifier) == Ok::<Seq<Lexeme>, Fault>(
        lex_from(s, at_open),
    ));
    assert(expect(lex_from(s, at_open), TokenKind::OpenParen) == Ok::<Seq<Lexeme>, Fault>(
        lex_from(s, at_rows),
    ));
    assert(crate::grammar::layer(lex_from(s, at_rows)) == rows(lex_from(s, at_rows), Seq::empty()));
}

/// The blocks of the layers of a keymap from layer `layer` on.
pub open spec fn layers_tail(layers: Seq<LayerView>, ops: PrintOptions, layer: int) -> Seq<char>
    decreases layers.len() - layer,
{
    if layer >= layers.len() {
        Seq::empty()
    } else {
        layer_text(layers, layer, ops) + layers_tail(layers, ops, layer + 1)
    }
}

/// The blocks of all layers are those of the first layers and then those of
/// the layers from there on.
pub proof fn lemma_layers_text_split(layers: Seq<LayerView>, ops: PrintOptions, layer: int)
    requires
        0 <= layer <= layers.len(),
    ensures
        layers_text(layers, ops, layers.len() as int) == layers_text(layers, ops, layer)
            + layers_tail(layers, ops, layer),
    decreases layers.len() - layer,
{
    let all = layers_text(layers, ops, layers.len() as int);
    if layer < layers.len() {
        lemma_layers_text_split(layers, ops, layer + 1);
        assert(all =~= layers_text(layers, ops, layer) + layers_tail(layers, ops, layer));
    } else {
        assert(all =~= layers_text(layers, ops, layer) + layers_tail(layers, ops, layer));
    }
}

/// A layer block can be written down: its label is an identifier or a
/// number, its name is an identifier, and each of its rows holds valid
/// keys, one at least.
pub open spec fn block_is_valid(block: LayerBlockTree) -> bool {
    &&& is_identifier(block.num) || is_number(block.num)
    &&& is_identifier(block.name)
    &&& forall|r: int|
        0 <= r < block.rows.len() ==> {
            &&& (#[trigger] block.rows[r]).len() >= 1
            &&& forall|i: int| 0 <= i < block.rows[r].len() ==> key_is_valid(#[trigger] block.rows[r][i])
        }
}

/// The layer blocks `trees` stand in the layers of a keymap: each layer has
/// the label and the name of its block, which is valid and has a row, and
/// the rows of the block stand in the grid of the layer.
pub open spec fn program_holds(layers: Seq<LayerView>, trees: Seq<LayerBlockTree>) -> bool {
    &&& layers.len() == trees.len()
    &&& forall|l: int|
        0 <= l < trees.len() ==> {
            &&& block_is_valid(#[trigger] trees[l])
            &&& trees[l].rows.len() >= 1
            &&& layers[l].num == trees[l].num
            &&& layers[l].name == trees[l].name
            &&& grid_holds(layers[l].keys, trees[l].rows)
        }
}

/// Where the blocks of the layers of a keymap from layer `layer` on stand
/// at the end of a text, and layer blocks stand in the layers, the tokens
/// from there on parse to those layer blocks, behind those that are `done`,
/// and leave the end of the text.
pub proof fn lemma_blocks_parse(
    s: Seq<char>,
    pos: int,
    layers: Seq<LayerView>,
    ops: PrintOptions,
    layer: int,
    trees: Seq<LayerBlockTree>,
    done: Seq<LayerBlockTree>,
)
    requires
        0 <= layer < layers.len(),
        program_holds(layers, trees),
        stands_at(s, pos, layers_tail(layers, ops, layer)),
        pos + layers_tail(layers, ops, layer).len() == s.len(),
    ensures
        head(lex_from(s, pos)).kind == TokenKind::OpenBracket,
        blocks(lex_from(s, pos), done) matches Ok(x) && x.value == done + trees.subrange(
            layer,
            trees.len() as int,
        ) && x.rest == lex_from(s, s.len() as int),
    decreases layers.len() - layer,
{
    let count = layers.len() as int;
    let this = layer_text(layers, layer, ops);
    let others = layers_tail(layers, ops, layer + 1);
    let t = lex_from(s, pos);
    let block = trees[layer];
    assert(block_is_valid(block));
    lemma_parts_stand(s, pos, this, others);
    lemma_layer_parses(s, pos, layers, layer, ops, block.rows);
    let at_comma = pos + this.len() - 2;
    lemma_lex_mark(s, at_comma);
    lemma_lex_mark(s, at_comma + 1);
    lemma_layer_block_advances(t);
    lemma_no_breaks_to_skip(lex_from(s, at_comma));
    let behind = lex_from(s, at_comma + 2);
    if layer + 1 < count {
        lemma_blocks_parse(s, at_comma + 2, layers, ops, layer + 1, trees, done.push(block));
        assert(skip_breaks(lex_from(s, at_comma + 1)) == behind) by {
            assert(skip_breaks(behind) == behind);
        }
        assert(done.push(block) + trees.subrange(layer + 1, count) =~= done + trees.subrange(
            layer,
            count,
        ));
    } else {
        assert(others =~= Seq::<char>::empty());
        assert(skip_breaks(lex_from(s, at_comma + 1)) == behind) by {
            assert(skip_breaks(behind) == behind);
        }
        assert(done.push(block) =~= done + trees.subrange(layer, count));
    }
}

/// The text of a keymap in whose layers layer blocks stand, one at least,
/// parses to the program of those layer blocks.
pub proof fn lemma_printed_text_parses(
    layers: Seq<LayerView>,
    ops: PrintOptions,
    trees: Seq<LayerBlockTree>,
)
    requires
        layers.len() >= 1,
        program_holds(layers, trees),
    ensures
        program_of(keymap_text(layers, ops)) == Ok::<Seq<LayerBlockTree>, Fault>(trees),
{
    let s = keymap_text(layers, ops);
    lemma_layers_text_split(layers, ops, 0);
    assert(s =~= layers_tail(layers, ops, 0));
    assert(s.subrange(0, s.len() as int) =~= s);
    lemma_blocks_parse(s, 0, layers, ops, 0, trees, Seq::empty());
    lemma_no_breaks_to_skip(lex_from(s, 0));
    lemma_no_breaks_to_skip(lex_from(s, s.len() as int));
    assert(Seq::<LayerBlockTree>::empty() + trees.subrange(0, trees.len() as int) =~= trees);
}

/// The texts of the keys of a row from column `col` on are the keys of the
/// cells from there on.
pub proof fn lemma_texts_from_are_keys(row: Seq<Option<Seq<char>>>, col: int)
    requires
        0 <= col <= row.len(),
    ensures
        texts_from(row, col) == keys_of(row.subrange(col, row.len() as int)),
    decreases row.len() - col,
{
    let rest = row.subrange(col, row.len() as int);
    if col < row.len() {
        let first = seq![row[col]];
        let others = row.subrange(col + 1, row.len() as int);
        lemma_texts_from_are_keys(row, col + 1);
        assert(rest =~= first + others);
        lemma_keys_of_concat(first, others);
        assert(first.drop_last() =~= Seq::<Option<Seq<char>>>::empty());
        assert(keys_of(first.drop_last()) =~= Seq::<Seq<char>>::empty());
        match row[col] {
            Some(text) => {
                assert(keys_of(first) =~= seq![text]);
            },
            None => {
                assert(keys_of(first) =~= Seq::<Seq<char>>::empty());
                assert(keys_of(first) + keys_of(others) =~= keys_of(others));
            },
        }
    } else {
        assert(rest =~= Seq::<Option<Seq<char>>>::empty());
    }
}

/// The valid layer blocks of which a keymap was built stand in its layers.
pub proof fn lemma_built_keymap_holds_program(trees: Seq<LayerBlockTree>, ops: PrintOptions)
    requires
        forall|l: int| 0 <= l < trees.len() ==> block_is_valid(#[trigger] trees[l]),
    ensures
        keymap_of(trees, ops) matches Ok(layers) ==> layers.len() >= 1 && program_holds(
            layers,
            trees,
        ),
{
    if let Ok(layers) = keymap_of(trees, ops) {
        let shift = ops.thumb_shift_in as nat;
        let thumbs = ops.number_of_thumbs as nat;
        assert forall|l: int| 0 <= l < trees.len() implies {
            &&& block_is_valid(#[trigger] trees[l])
            &&& trees[l].rows.len() >= 1
            &&& layers[l].num == trees[l].num
            &&& layers[l].name == trees[l].name
            &&& grid_holds(layers[l].keys, trees[l].rows)
        } by {
            let raw = row_texts(trees[l].rows);
            lemma_normalized_rectangular(raw, shift, thumbs);
            assert(trees[l].rows.len() != 0);
            assert forall|r: int| 0 <= r < trees[l].rows.len() implies {
                &&& (#[trigger] trees[l].rows[r]).len() >= 1
                &&& row_holds(layers[l].keys[r], 0, trees[l].rows[r])
                &&& forall|i: int|
                    0 <= i < trees[l].rows[r].len() ==> key_is_valid(#[trigger] trees[l].rows[r][i])
            } by {
                lemma_normalized_keeps_keys(raw, shift, thumbs, r);
                lemma_texts_from_are_keys(layers[l].keys[r], 0);
                assert(layers[l].keys[r].subrange(0, layers[l].keys[r].len() as int)
                    =~= layers[l].keys[r]);
                assert(raw[r] =~= Seq::new(
                    trees[l].rows[r].len(),
                    |i: int| render_key(trees[l].rows[r][i]),
                ));
            }
        }
    }
}

/// A row that was parsed from valid tokens holds valid keys, one at least
/// behind those that were `done`.
pub proof fn lemma_parsed_line_is_valid(t: Seq<Lexeme>, done: Seq<KeyTree>)
    requires
        tokens_are_valid(t),
        forall|i: int| 0 <= i < done.len() ==> key_is_valid(#[trigger] done[i]),
    ensures
        line(t, done) matches Ok(l) ==> l.value.len() >= 1 && forall|i: int|
            0 <= i < l.value.len() ==> key_is_valid(#[trigger] l.value[i]),
    decreases t.len(),
{
    lemma_parsed_key_is_valid(t);
    lemma_key_advances(t);
    if let Ok(k) = key(t) {
        let more = done.push(k.value);
        assert forall|i: int| 0 <= i < more.len() implies key_is_valid(#[trigger] more[i]) by {
            if i < done.len() {
                assert(more[i] == done[i]);
            }
        }
        if head(k.rest).kind == TokenKind::Comma && head(k.rest.skip(1)).kind
            == TokenKind::Identifier {
            lemma_skip_is_end(k.rest, 1);
            lemma_end_of_end(k.rest.skip(1), k.rest, t);
            lemma_end_is_valid(k.rest.skip(1), t);
            lemma_parsed_line_is_valid(k.rest.skip(1), more);
        }
    }
}

/// The rows of a layer are valid: each holds valid keys, one at least.
pub open spec fn rows_are_valid(list: Seq<Seq<KeyTree>>) -> bool {
    forall|r: int|
        0 <= r < list.len() ==> {
            &&& (#[trigger] list[r]).len() >= 1
            &&& forall|i: int| 0 <= i < list[r].len() ==> key_is_valid(#[trigger] list[r][i])
        }
}

/// Rows that were parsed from valid tokens are valid.
pub proof fn lemma_parsed_rows_are_valid(t: Seq<Lexeme>, done: Seq<Seq<KeyTree>>)
    requires
        tokens_are_valid(t),
        rows_are_valid(done),
    ensures
        rows(t, done) matches Ok(x) ==> rows_are_valid(x.value),
    decreases t.len(),
{
    lemma_parsed_line_is_valid(t, Seq::empty());
    lemma_line_advances(t, Seq::empty());
    if let Ok(l) = line(t, Seq::empty()) {
        let more = done.push(l.value);
        assert forall|r: int| 0 <= r < more.len() implies {
            &&& (#[trigger] more[r]).len() >= 1
            &&& forall|i: int| 0 <= i < more[r].len() ==> key_is_valid(#[trigger] more[r][i])
        } by {
            if r < done.len() {
                assert(more[r] == done[r]);
            }
        }
        if head(l.rest).kind == TokenKind::LineBreak && head(skip_breaks(l.rest)).kind
            == TokenKind::Identifier {
            lemma_skip_breaks(l.rest);
            lemma_end_of_end(skip_breaks(l.rest), l.rest, t);
            lemma_end_is_valid(skip_breaks(l.rest), t);
            lemma_parsed_rows_are_valid(skip_breaks(l.rest), more);
        }
    }
}

/// A layer block that was parsed from valid tokens is valid.
pub proof fn lemma_parsed_block_is_valid(t: Seq<Lexeme>)
    requires
        tokens_are_valid(t),
    ensures
        layer_block(t) matches Ok(b) ==> block_is_valid(b.value),
{
    lemma_expect_advances(t, TokenKind::OpenBracket);
    if let Ok(at_num) = expect(t, TokenKind::OpenBracket) {
        lemma_end_is_valid(at_num, t);
        if head(at_num).kind == TokenKind::Identifier || head(at_num).kind == TokenKind::Number {
            let at_close = skip_breaks(at_num.skip(1));
            lemma_skip_is_end(at_num, 1);
            lemma_skip_breaks(at_num.skip(1));
            lemma_end_of_end(at_close, at_num.skip(1), at_num);
            lemma_end_of_end(at_close, at_num, t);
            lemma_expect_advances(at_close, TokenKind::CloseBracket);
            if let Ok(at_equals) = expect(at_close, TokenKind::CloseBracket) {
                lemma_end_of_end(at_equals, at_close, t);
                lemma_expect_advances(at_equals, TokenKind::Equals);
                if let Ok(at_name) = expect(at_equals, TokenKind::Equals) {
                    lemma_end_of_end(at_name, at_equals, t);
                    lemma_end_is_valid(at_name, t);
                    lemma_expect_advances(at_name, TokenKind::Identifier);
                    if let Ok(at_open) = expect(at_name, TokenKind::Identifier) {
                        lemma_end_of_end(at_open, at_name, t);
                        lemma_expect_advances(at_open, TokenKind::OpenParen);
                        if let Ok(at_layer) = expect(at_open, TokenKind::OpenParen) {
                            lemma_end_of_end(at_layer, at_open, t);
                            lemma_skip_breaks(at_layer);
                            lemma_end_of_end(skip_breaks(at_layer), at_layer, t);
                            lemma_end_is_valid(skip_breaks(at_layer), t);
                            lemma_parsed_rows_are_valid(skip_breaks(at_layer), Seq::empty());
                        }
                    }
                }
            }
        }
    }
}

/// Layer blocks that were parsed from valid tokens are valid.
pub proof fn lemma_parsed_blocks_are_valid(t: Seq<Lexeme>, done: Seq<LayerBlockTree>)
    requires
        tokens_are_valid(t),
        forall|l: int| 0 <= l < done.len() ==> block_is_valid(#[trigger] done[l]),
    ensures
        blocks(t, done) matches Ok(x) ==> forall|l: int|
            0 <= l < x.value.len() ==> block_is_valid(#[trigger] x.value[l]),
    decreases t.len(),
{
    lemma_parsed_block_is_valid(t);
    lemma_layer_block_advances(t);
    if let Ok(b) = layer_block(t) {
        let more = done.push(b.value);
        assert forall|l: int| 0 <= l < more.len() implies block_is_valid(#[trigger] more[l]) by {
            if l < done.len() {
                assert(more[l] == done[l]);
            }
        }
        let next = skip_breaks(b.rest);
        lemma_skip_breaks(b.rest);
        lemma_end_of_end(next, b.rest, t);
        let behind = if head(next).kind == TokenKind::Comma {
            skip_breaks(next.skip(1))
        } else {
            next
        };
        if head(next).kind == TokenKind::Comma {
            lemma_skip_is_end(next, 1);
            lemma_skip_breaks(next.skip(1));
            lemma_end_of_end(behind, next.skip(1), next);
            lemma_end_of_end(behind, next, t);
        }
        if head(behind).kind == TokenKind::OpenBracket {
            lemma_end_is_valid(behind, t);
            lemma_parsed_blocks_are_valid(behind, more);
        }
    }
}

/// The layer blocks of a program that was parsed from a text are valid.
pub proof fn lemma_parsed_program_is_valid(s: Seq<char>)
    ensures
        program_of(s) matches Ok(trees) ==> forall|l: int|
            0 <= l < trees.len() ==> block_is_valid(#[trigger] trees[l]),
{
    lemma_lex_is_valid(s, 0);
    lemma_skip_breaks(lex(s));
    lemma_end_is_valid(skip_breaks(lex(s)), lex(s));
    lemma_parsed_blocks_are_valid(skip_breaks(lex(s)), Seq::empty());
}

/// What is printed parses again: where a text holds a program and a keymap
/// is built from that program, the printed text of the keymap holds the
/// same program.
pub proof fn lemma_printed_keymap_holds_program(s: Seq<char>, ops: PrintOptions)
    ensures
        program_of(s) matches Ok(trees) ==> (keymap_of(trees, ops) matches Ok(layers)
            ==> program_of(keymap_text(layers, ops)) == Ok::<Seq<LayerBlockTree>, Fault>(trees)),
{
    lemma_parsed_program_is_valid(s);
    if let Ok(trees) = program_of(s) {
        lemma_built_keymap_holds_program(trees, ops);
        if let Ok(layers) = keymap_of(trees, ops) {
            lemma_printed_text_parses(layers, ops, trees);
        }
    }
}

} // verus!
