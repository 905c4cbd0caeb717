//! The pretty-printer: a keymap as column-aligned text, one block per layer.

use crate::grid::{lemma_max_len, max_len};
use crate::keymap::{GridView, Keymap, LayerView};
use crate::options::PrintOptions;
use crate::text::{blanks, push_blanks};
use vstd::prelude::*;

verus! {

/// The larger of two numbers.
pub open spec fn larger(a: nat, b: nat) -> nat {
    if a >= b {
        a
    } else {
        b
    }
}

/// The length of the text in a cell; a gap has length 0.
pub open spec fn cell_len(cell: Option<Seq<char>>) -> nat {
    match cell {
        Some(text) => text.len(),
        None => 0,
    }
}

/// The length of the text at column `col` of a row: 0 where the row has no
/// such column.
pub open spec fn len_at(row: Seq<Option<Seq<char>>>, col: int) -> nat {
    if 0 <= col < row.len() {
        cell_len(row[col])
    } else {
        0
    }
}

/// The length of the longest text in column `col` of a grid.
pub open spec fn column_width(grid: GridView, col: int) -> nat
    decreases grid.len(),
{
    if grid.len() == 0 {
        0
    } else {
        larger(column_width(grid.drop_last(), col), len_at(grid.last(), col))
    }
}

/// The length of the longest text in column `col` of any layer.
pub open spec fn shared_column_width(layers: Seq<LayerView>, col: int) -> nat
    decreases layers.len(),
{
    if layers.len() == 0 {
        0
    } else {
        larger(
            shared_column_width(layers.drop_last(), col),
            column_width(layers.last().keys, col),
        )
    }
}

/// The display width of column `col` in layer `layer`: measured over all
/// layers where `align` is set, over that layer alone where it is not.
pub open spec fn display_width(layers: Seq<LayerView>, layer: int, col: int, align: bool) -> nat {
    if align {
        shared_column_width(layers, col)
    } else {
        column_width(layers[layer].keys, col)
    }
}

/// No key stands after column `col` of the row.
pub open spec fn only_gaps_after(row: Seq<Option<Seq<char>>>, col: int) -> bool {
    forall|j: int| col < j < row.len() ==> row[j] is None
}

/// The text of one cell in a column of display width `width`. A gap is
/// `width + 2` blanks. A key is padded with blanks to `width + 1` characters,
/// on its right in the right half of the row or where `left_align` is set, on
/// its left otherwise, and is followed by a comma unless the row closes the
/// layer and holds no key after it.
pub open spec fn cell_text(
    row: Seq<Option<Seq<char>>>,
    col: int,
    width: nat,
    closing: bool,
    left_align: bool,
) -> Seq<char> {
    match row[col] {
        None => blanks(width + 2),
        Some(text) => {
            let pad = blanks(
                if width + 1 > text.len() {
                    (width + 1 - text.len()) as nat
                } else {
                    0
                },
            );
            let comma = if closing && only_gaps_after(row, col) {
                Seq::<char>::empty()
            } else {
                seq![',']
            };
            if col >= row.len() / 2 || left_align {
                text + pad + comma
            } else {
                pad + text + comma
            }
        },
    }
}

/// The text of the cell at row `row`, column `col` of layer `layer`.
pub open spec fn printed_cell(
    layers: Seq<LayerView>,
    layer: int,
    row: int,
    col: int,
    ops: PrintOptions,
) -> Seq<char> {
    cell_text(
        layers[layer].keys[row],
        col,
        display_width(layers, layer, col, ops.align_layers),
        row + 1 == layers[layer].keys.len(),
        ops.left_align,
    )
}

/// The texts of the cells in columns `from..to` of a row, one after the other.
pub open spec fn cells_text(
    layers: Seq<LayerView>,
    layer: int,
    row: int,
    ops: PrintOptions,
    from: int,
    to: int,
) -> Seq<char>
    decreases to - from,
{
    if to <= from {
        Seq::empty()
    } else {
        cells_text(layers, layer, row, ops, from, to - 1) + printed_cell(
            layers,
            layer,
            row,
            to - 1,
            ops,
        )
    }
}

/// The column at which the right half of a row begins.
pub open spec fn centre_of(layers: Seq<LayerView>, layer: int, row: int) -> int {
    layers[layer].keys[row].len() as int / 2
}

/// The text of a row: the cells of its left half, the gutter of
/// `split_space` blanks, the cells of its right half and a line break. A row
/// without a left half has no gutter.
pub open spec fn row_text(layers: Seq<LayerView>, layer: int, row: int, ops: PrintOptions) -> Seq<
    char,
> {
    let len = layers[layer].keys[row].len() as int;
    let centre = centre_of(layers, layer, row);
    if centre >= 1 {
        cells_text(layers, layer, row, ops, 0, centre) + blanks(ops.split_space as nat)
            + cells_text(layers, layer, row, ops, centre, len) + seq!['\n']
    } else {
        cells_text(layers, layer, row, ops, 0, len) + seq!['\n']
    }
}

/// The texts of the first `upto` rows of a layer.
pub open spec fn rows_text(layers: Seq<LayerView>, layer: int, ops: PrintOptions, upto: int) -> Seq<
    char,
>
    decreases upto,
{
    if upto <= 0 {
        Seq::empty()
    } else {
        rows_text(layers, layer, ops, upto - 1) + row_text(layers, layer, upto - 1, ops)
    }
}

/// The block of one layer: its header, its rows and its closing line.
pub open spec fn layer_text(layers: Seq<LayerView>, layer: int, ops: PrintOptions) -> Seq<char> {
    seq!['['] + layers[layer].num + seq![']', ' ', '=', ' '] + layers[layer].name + seq![
        ' ',
        '(',
        '\n',
    ] + rows_text(layers, layer, ops, layers[layer].keys.len() as int) + seq![')', ',', '\n']
}

/// The blocks of the first `upto` layers.
pub open spec fn layers_text(layers: Seq<LayerView>, ops: PrintOptions, upto: int) -> Seq<char>
    decreases upto,
{
    if upto <= 0 {
        Seq::empty()
    } else {
        layers_text(layers, ops, upto - 1) + layer_text(layers, upto - 1, ops)
    }
}

/// The printed form of a keymap.
pub open spec fn keymap_text(layers: Seq<LayerView>, ops: PrintOptions) -> Seq<char> {
    layers_text(layers, ops, layers.len() as int)
}

/// The number of columns of a row up to and including its last key.
pub open spec fn key_columns(row: Seq<Option<Seq<char>>>) -> nat
    decreases row.len(),
{
    if row.len() == 0 {
        0
    } else if row.last() is Some {
        row.len()
    } else {
        key_columns(row.drop_last())
    }
}

/// No key stands after column `col` exactly when `col` is the column of the
/// last key or lies behind it.
pub proof fn lemma_key_columns(row: Seq<Option<Seq<char>>>, col: int)
    requires
        0 <= col < row.len(),
    ensures
        key_columns(row) <= row.len(),
        only_gaps_after(row, col) <==> col + 1 >= key_columns(row),
    decreases row.len(),
{
    if row.last() is Some {
        if col + 1 < row.len() {
            assert(row[row.len() - 1] is Some);
        }
    } else {
        let init = row.drop_last();
        if col < init.len() {
            lemma_key_columns(init, col);
            if only_gaps_after(init, col) {
                assert forall|j: int| col < j < row.len() implies row[j] is None by {
                    if j < init.len() {
                        assert(init[j] is None);
                    }
                }
            }
            if only_gaps_after(row, col) {
                assert forall|j: int| col < j < init.len() implies init[j] is None by {
                    assert(row[j] is None);
                }
            }
        } else {
            lemma_key_columns_bound(init);
        }
    }
}

/// A row has no more key columns than columns.
pub proof fn lemma_key_columns_bound(row: Seq<Option<Seq<char>>>)
    ensures
        key_columns(row) <= row.len(),
    decreases row.len(),
{
    if row.len() > 0 && !(row.last() is Some) {
        lemma_key_columns_bound(row.drop_last());
    }
}

/// The text in a cell is no longer than its column is wide.
pub proof fn lemma_column_width_bounds(grid: GridView, row: int, col: int)
    requires
        0 <= row < grid.len(),
    ensures
        len_at(grid[row], col) <= column_width(grid, col),
    decreases grid.len(),
{
    if row < grid.len() - 1 {
        lemma_column_width_bounds(grid.drop_last(), row, col);
        assert(grid.drop_last()[row] == grid[row]);
    }
}

/// A column is no wider in one layer than over all layers.
pub proof fn lemma_shared_width_bounds(layers: Seq<LayerView>, layer: int, col: int)
    requires
        0 <= layer < layers.len(),
    ensures
        column_width(layers[layer].keys, col) <= shared_column_width(layers, col),
    decreases layers.len(),
{
    if layer < layers.len() - 1 {
        lemma_shared_width_bounds(layers.drop_last(), layer, col);
        assert(layers.drop_last()[layer] == layers[layer]);
    }
}

/// Column alignment: a cell takes two characters more than its column is
/// wide, but for the last key of the layer, which takes one more: the comma
/// is not there.
pub proof fn lemma_cells_align(
    layers: Seq<LayerView>,
    layer: int,
    row: int,
    col: int,
    ops: PrintOptions,
)
    requires
        0 <= layer < layers.len(),
        0 <= row < layers[layer].keys.len(),
        0 <= col < layers[layer].keys[row].len(),
    ensures
        printed_cell(layers, layer, row, col, ops).len() == display_width(
            layers,
            layer,
            col,
            ops.align_layers,
        ) + if layers[layer].keys[row][col] is Some && row + 1 == layers[layer].keys.len()
            && only_gaps_after(layers[layer].keys[row], col) {
            1int
        } else {
            2int
        },
{
    lemma_column_width_bounds(layers[layer].keys, row, col);
    lemma_shared_width_bounds(layers, layer, col);
}

/// Centre-gutter placement: in the text of a row that has a left half, the
/// cells of that half are followed by exactly `split_space` blanks, and
/// the cell of column `centre` follows those.
pub proof fn lemma_gutter_after_left_half(
    layers: Seq<LayerView>,
    layer: int,
    row: int,
    ops: PrintOptions,
)
    requires
        0 <= layer < layers.len(),
        0 <= row < layers[layer].keys.len(),
        layers[layer].keys[row].len() >= 2,
    ensures
        ({
            let text = row_text(layers, layer, row, ops);
            let centre = centre_of(layers, layer, row);
            let left = cells_text(layers, layer, row, ops, 0, centre);
            let right = cells_text(layers, layer, row, ops, centre, layers[layer].keys[row].len() as int);
            &&& text.len() == left.len() + ops.split_space + right.len() + 1
            &&& text.subrange(0, left.len() as int) == left
            &&& text.subrange(left.len() as int, left.len() + ops.split_space) == blanks(
                ops.split_space as nat,
            )
            &&& text.subrange(left.len() + ops.split_space, text.len() - 1) == right
            &&& text.last() == '\n'
        }),
{
    let text = row_text(layers, layer, row, ops);
    let centre = centre_of(layers, layer, row);
    let left = cells_text(layers, layer, row, ops, 0, centre);
    let right = cells_text(layers, layer, row, ops, centre, layers[layer].keys[row].len() as int);
    assert(text =~= left + blanks(ops.split_space as nat) + right + seq!['\n']);
    assert(text.subrange(0, left.len() as int) =~= left);
    assert(text.subrange(left.len() as int, left.len() + ops.split_space) =~= blanks(
        ops.split_space as nat,
    ));
    assert(text.subrange(left.len() + ops.split_space, text.len() - 1) =~= right);
}

/// The value at index `i`, or 0 where the sequence has no such index.
pub open spec fn at_or_zero(v: Seq<usize>, i: int) -> nat {
    if 0 <= i < v.len() {
        v[i] as nat
    } else {
        0
    }
}

/// Raises each entry of `acc` to the entry of `other` at the same index where
/// that is larger, and lengthens `acc` to the length of `other`.
fn merge_widths(acc: &mut Vec<usize>, other: &Vec<usize>)
    ensures
        final(acc).len() == larger(old(acc).len() as nat, other.len() as nat),
        forall|i: int| #[trigger]
            at_or_zero(final(acc)@, i) == larger(at_or_zero(old(acc)@, i), at_or_zero(other@, i)),
{
    let mut i: usize = 0;
    while i < other.len()
        invariant
            i <= other.len(),
            acc.len() == larger(old(acc).len() as nat, i as nat),
            forall|j: int|
                0 <= j < i ==> #[trigger] at_or_zero(acc@, j) == larger(
                    at_or_zero(old(acc)@, j),
                    at_or_zero(other@, j),
                ),
            forall|j: int| j >= i ==> #[trigger] at_or_zero(acc@, j) == at_or_zero(old(acc)@, j),
        decreases other.len() - i,
    {
        let ghost before = acc@;
        if i < acc.len() {
            if other[i] > acc[i] {
                acc[i] = other[i];
            }
        } else {
            acc.push(other[i]);
        }
        assert forall|j: int| 0 <= j < i + 1 implies #[trigger] at_or_zero(acc@, j) == larger(
            at_or_zero(old(acc)@, j),
            at_or_zero(other@, j),
        ) by {
            if j < i {
                assert(at_or_zero(acc@, j) == at_or_zero(before, j));
            } else {
                assert(at_or_zero(before, j) == at_or_zero(old(acc)@, j));
            }
        }
        assert forall|j: int| j >= i + 1 implies #[trigger] at_or_zero(acc@, j) == at_or_zero(
            old(acc)@,
            j,
        ) by {
            assert(at_or_zero(acc@, j) == at_or_zero(before, j));
        }
        i += 1;
    }
}

/// The lengths of the texts in the cells of a row.
fn row_lens(row: &Vec<Option<String>>) -> (lens: Vec<usize>)
    ensures
        lens.len() == row.len(),
        forall|i: int| #[trigger] at_or_zero(lens@, i) == len_at(row.deep_view(), i),
{
    let mut lens: Vec<usize> = Vec::new();
    let mut i: usize = 0;
    while i < row.len()
        invariant
            i <= row.len(),
            lens.len() == i,
            forall|j: int| 0 <= j < i ==> #[trigger] at_or_zero(lens@, j) == len_at(row.deep_view(), j),
        decreases row.len() - i,
    {
        let ghost before = lens@;
        let len = match &row[i] {
            Some(text) => text.as_str().unicode_len(),
            None => 0,
        };
        lens.push(len);
        assert forall|j: int| 0 <= j < i + 1 implies #[trigger] at_or_zero(lens@, j) == len_at(
            row.deep_view(),
            j,
        ) by {
            if j < i {
                assert(at_or_zero(lens@, j) == at_or_zero(before, j));
            }
        }
        i += 1;
    }
    lens
}

/// The widths of the columns of a grid.
fn measure_grid(grid: &Vec<Vec<Option<String>>>) -> (widths: Vec<usize>)
    ensures
        widths.len() == max_len(grid.deep_view()),
        forall|i: int| #[trigger] at_or_zero(widths@, i) == column_width(grid.deep_view(), i),
{
    let ghost rows = grid.deep_view();
    let mut widths: Vec<usize> = Vec::new();
    let mut r: usize = 0;
    while r < grid.len()
        invariant
            r <= grid.len(),
            rows == grid.deep_view(),
            widths.len() == max_len(rows.take(r as int)),
            forall|i: int| #[trigger] at_or_zero(widths@, i) == column_width(rows.take(r as int), i),
        decreases grid.len() - r,
    {
        let lens = row_lens(&grid[r]);
        let ghost before = widths@;
        merge_widths(&mut widths, &lens);
        proof {
            assert(rows.take(r + 1).drop_last() =~= rows.take(r as int));
            assert(rows.take(r + 1).last() == rows[r as int]);
            assert(rows[r as int] == grid[r as int].deep_view());
            assert forall|i: int| #[trigger]
                at_or_zero(widths@, i) == column_width(rows.take(r + 1), i) by {
                assert(at_or_zero(before, i) == column_width(rows.take(r as int), i));
                assert(at_or_zero(lens@, i) == len_at(grid[r as int].deep_view(), i));
            }
        }
        r += 1;
    }
    assert(rows.take(grid.len() as int) =~= rows);
    widths
}

/// The widths of the columns over all layers of a keymap.
fn measure_layers(keymap: &Keymap) -> (widths: Vec<usize>)
    ensures
        forall|i: int| #[trigger] at_or_zero(widths@, i) == shared_column_width(keymap@, i),
        forall|l: int, r: int|
            0 <= l < keymap.layers.len() && 0 <= r < keymap.layers[l].keys.len() ==> (
            #[trigger] keymap.layers[l].keys[r]).len() <= widths.len(),
{
    let ghost layers = keymap@;
    let mut widths: Vec<usize> = Vec::new();
    let mut l: usize = 0;
    while l < keymap.layers.len()
        invariant
            l <= keymap.layers.len(),
            layers == keymap@,
            forall|i: int| #[trigger] at_or_zero(widths@, i) == shared_column_width(layers.take(l as int), i),
            forall|k: int, r: int|
                0 <= k < l && 0 <= r < keymap.layers[k].keys.len() ==> (
                #[trigger] keymap.layers[k].keys[r]).len() <= widths.len(),
        decreases keymap.layers.len() - l,
    {
        let own = measure_grid(&keymap.layers[l].keys);
        let ghost before = widths@;
        merge_widths(&mut widths, &own);
        proof {
            assert(layers.take(l + 1).drop_last() =~= layers.take(l as int));
            assert(layers.take(l + 1).last() == layers[l as int]);
            assert(layers[l as int].keys == keymap.layers[l as int].keys.deep_view());
            assert forall|i: int| #[trigger]
                at_or_zero(widths@, i) == shared_column_width(layers.take(l + 1), i) by {
                assert(at_or_zero(before, i) == shared_column_width(layers.take(l as int), i));
                assert(at_or_zero(own@, i) == column_width(layers[l as int].keys, i));
            }
            lemma_max_len(keymap.layers[l as int].keys.deep_view());
            assert forall|k: int, r: int|
                0 <= k < l + 1 && 0 <= r < keymap.layers[k].keys.len() implies (
            #[trigger] keymap.layers[k].keys[r]).len() <= widths.len() by {
                if k == l {
                    assert(keymap.layers[k].keys.deep_view()[r].len() == keymap.layers[k].keys[r].len());
                }
            }
        }
        l += 1;
    }
    assert(layers.take(keymap.layers.len() as int) =~= layers);
    widths
}

/// The number of columns of a row up to and including its last key.
fn count_key_columns(row: &Vec<Option<String>>) -> (n: usize)
    ensures
        n == key_columns(row.deep_view()),
{
    let ghost cells = row.deep_view();
    let mut n: usize = row.len();
    assert(cells.take(n as int) =~= cells);
    while n > 0 && row[n - 1].is_none()
        invariant
            n <= row.len(),
            cells == row.deep_view(),
            key_columns(cells) == key_columns(cells.take(n as int)),
        decreases n,
    {
        assert(cells.take(n as int).drop_last() =~= cells.take(n - 1));
        assert(cells.take(n as int).last() == cells[n - 1]);
        n -= 1;
    }
    proof {
        if n > 0 {
            assert(cells.take(n as int).last() == cells[n - 1]);
        }
    }
    n
}

/// Appends the text of one cell.
fn push_cell(
    out: &mut String,
    row: &Vec<Option<String>>,
    col: usize,
    width: usize,
    comma: bool,
    closing: bool,
    left_align: bool,
)
    requires
        col < row.len(),
        comma == !(closing && only_gaps_after(row.deep_view(), col as int)),
    ensures
        final(out)@ == old(out)@ + cell_text(
            row.deep_view(),
            col as int,
            width as nat,
            closing,
            left_align,
        ),
{
    let ghost cells = row.deep_view();
    let ghost start = old(out)@;
    match &row[col] {
        None => {
            push_blanks(out, width);
            out.push(' ');
            out.push(' ');
            assert(out@ =~= start + blanks(width as nat + 2));
            assert(cells[col as int] is None);
        },
        Some(text) => {
            assert(cells[col as int] == Some(text@));
            let len = text.as_str().unicode_len();
            let on_right = col >= row.len() / 2 || left_align;
            if on_right {
                out.append(text.as_str());
            }
            if width >= len {
                push_blanks(out, width - len);
                out.push(' ');
            }
            let ghost pad = blanks(
                if width + 1 > len {
                    (width + 1 - len) as nat
                } else {
                    0
                },
            );
            if !on_right {
                out.append(text.as_str());
            }
            if on_right {
                assert(out@ =~= start + text@ + pad);
            } else {
                assert(out@ =~= start + pad + text@);
            }
            if comma {
                out.push(',');
            }
            assert(out@ =~= start + cell_text(
                cells,
                col as int,
                width as nat,
                closing,
                left_align,
            ));
        },
    }
}

/// Appends the texts of the cells in columns `from..to` of one row of a layer.
fn push_cells(
    out: &mut String,
    keymap: &Keymap,
    layer: usize,
    row: usize,
    widths: &Vec<usize>,
    ops: &PrintOptions,
    from: usize,
    to: usize,
)
    requires
        layer < keymap.layers.len(),
        row < keymap.layers[layer as int].keys.len(),
        from <= to <= keymap.layers[layer as int].keys[row as int].len() <= widths.len(),
        forall|c: int|
            0 <= c < keymap.layers[layer as int].keys[row as int].len() ==> #[trigger] widths[c]
                == display_width(keymap@, layer as int, c, ops.align_layers),
    ensures
        final(out)@ == old(out)@ + cells_text(
            keymap@,
            layer as int,
            row as int,
            *ops,
            from as int,
            to as int,
        ),
{
    let ghost layers = keymap@;
    let ghost start = old(out)@;
    let grid = &keymap.layers[layer].keys;
    let line = &grid[row];
    let ghost cells = line.deep_view();
    assert(layers[layer as int].keys == grid.deep_view());
    assert(layers[layer as int].keys[row as int] == cells);
    let closing = row + 1 == grid.len();
    let keys_end = count_key_columns(line);
    let mut col: usize = from;
    assert(out@ =~= start + cells_text(layers, layer as int, row as int, *ops, from as int, from as int));
    while col < to
        invariant
            from <= col <= to <= line.len() <= widths.len(),
            cells == line.deep_view(),
            layers[layer as int].keys[row as int] == cells,
            closing == (row + 1 == layers[layer as int].keys.len()),
            keys_end == key_columns(cells),
            forall|c: int|
                0 <= c < line.len() ==> #[trigger] widths[c] == display_width(
                    layers,
                    layer as int,
                    c,
                    ops.align_layers,
                ),
            out@ == start + cells_text(layers, layer as int, row as int, *ops, from as int, col as int),
        decreases to - col,
    {
        let ghost before = out@;
        proof {
            lemma_key_columns(cells, col as int);
        }
        let comma = !(closing && col + 1 >= keys_end);
        push_cell(out, line, col, widths[col], comma, closing, ops.left_align);
        assert(out@ == before + printed_cell(layers, layer as int, row as int, col as int, *ops));
        assert(out@ =~= start + cells_text(layers, layer as int, row as int, *ops, from as int, col + 1));
        col += 1;
    }
}

/// Appends the text of one row of a layer.
fn push_row(
    out: &mut String,
    keymap: &Keymap,
    layer: usize,
    row: usize,
    widths: &Vec<usize>,
    ops: &PrintOptions,
)
    requires
        layer < keymap.layers.len(),
        row < keymap.layers[layer as int].keys.len(),
        keymap.layers[layer as int].keys[row as int].len() <= widths.len(),
        forall|c: int|
            0 <= c < keymap.layers[layer as int].keys[row as int].len() ==> #[trigger] widths[c]
                == display_width(keymap@, layer as int, c, ops.align_layers),
    ensures
        final(out)@ == old(out)@ + row_text(keymap@, layer as int, row as int, *ops),
{
    let ghost layers = keymap@;
    let ghost start = old(out)@;
    let len = keymap.layers[layer].keys[row].len();
    assert(layers[layer as int].keys == keymap.layers[layer as int].keys.deep_view());
    assert(layers[layer as int].keys[row as int].len() == len);
    let centre = len / 2;
    if centre >= 1 {
        push_cells(out, keymap, layer, row, widths, ops, 0, centre);
        push_blanks(out, ops.split_space);
        push_cells(out, keymap, layer, row, widths, ops, centre, len);
    } else {
        push_cells(out, keymap, layer, row, widths, ops, 0, len);
    }
    out.push('\n');
    assert(out@ =~= start + row_text(layers, layer as int, row as int, *ops));
}

/// Appends the block of one layer.
fn push_layer(out: &mut String, keymap: &Keymap, layer: usize, shared: &Vec<usize>, ops: &PrintOptions)
    requires
        layer < keymap.layers.len(),
        forall|i: int| #[trigger] at_or_zero(shared@, i) == shared_column_width(keymap@, i),
        forall|l: int, r: int|
            0 <= l < keymap.layers.len() && 0 <= r < keymap.layers[l].keys.len() ==> (
            #[trigger] keymap.layers[l].keys[r]).len() <= shared.len(),
    ensures
        final(out)@ == old(out)@ + layer_text(keymap@, layer as int, *ops),
{
    let ghost layers = keymap@;
    let ghost start = old(out)@;
    let this = &keymap.layers[layer];
    let own = measure_grid(&this.keys);
    assert(layers[layer as int] == this@);
    out.push('[');
    out.append(this.num.as_str());
    out.push(']');
    out.push(' ');
    out.push('=');
    out.push(' ');
    out.append(this.name.as_str());
    out.push(' ');
    out.push('(');
    out.push('\n');
    let ghost head = seq!['['] + this.num@ + seq![']', ' ', '=', ' '] + this.name@ + seq![
        ' ',
        '(',
        '\n',
    ];
    assert(out@ =~= start + head + rows_text(layers, layer as int, *ops, 0));
    let mut row: usize = 0;
    while row < this.keys.len()
        invariant
            row <= this.keys.len(),
            layers == keymap@,
            layer < keymap.layers.len(),
            this == &keymap.layers[layer as int],
            layers[layer as int] == this@,
            own.len() == max_len(this.keys.deep_view()),
            forall|i: int| #[trigger] at_or_zero(own@, i) == column_width(this.keys.deep_view(), i),
            forall|i: int| #[trigger] at_or_zero(shared@, i) == shared_column_width(layers, i),
            forall|l: int, r: int|
                0 <= l < keymap.layers.len() && 0 <= r < keymap.layers[l].keys.len() ==> (
                #[trigger] keymap.layers[l].keys[r]).len() <= shared.len(),
            out@ == start + head + rows_text(layers, layer as int, *ops, row as int),
        decreases this.keys.len() - row,
    {
        let ghost before = out@;
        let widths = if ops.align_layers {
            shared
        } else {
            &own
        };
        proof {
            lemma_max_len(this.keys.deep_view());
            assert(this.keys.deep_view()[row as int].len() == this.keys[row as int].len());
            assert(keymap.layers[layer as int].keys[row as int].len() <= shared.len());
            assert forall|c: int| 0 <= c < this.keys[row as int].len() implies #[trigger] widths[c]
                == display_width(layers, layer as int, c, ops.align_layers) by {
                assert(at_or_zero(widths@, c) == widths[c]);
            }
        }
        push_row(out, keymap, layer, row, widths, ops);
        assert(out@ =~= start + head + rows_text(layers, layer as int, *ops, row + 1));
        row += 1;
    }
    out.push(')');
    out.push(',');
    out.push('\n');
    assert(out@ =~= start + layer_text(layers, layer as int, *ops));
}

/// Prints a keymap: for each layer a header line `[num] = name (`, one line
/// for each row of its grid, and a closing line `),`.
pub fn keymap_string(keymap: &Keymap, ops: &PrintOptions) -> (text: String)
    ensures
        text@ == keymap_text(keymap@, *ops),
{
    let shared = measure_layers(keymap);
    let mut out = String::new();
    let mut layer: usize = 0;
    while layer < keymap.layers.len()
        invariant
            layer <= keymap.layers.len(),
            forall|i: int| #[trigger] at_or_zero(shared@, i) == shared_column_width(keymap@, i),
            forall|l: int, r: int|
                0 <= l < keymap.layers.len() && 0 <= r < keymap.layers[l].keys.len() ==> (
                #[trigger] keymap.layers[l].keys[r]).len() <= shared.len(),
            out@ == layers_text(keymap@, *ops, layer as int),
        decreases keymap.layers.len() - layer,
    {
        push_layer(&mut out, keymap, layer, &shared, ops);
        layer += 1;
    }
    out
}

} // verus!
