//! Grid normalisation: ragged rows of key texts become one rectangular grid
//! of optional cells that keeps the left half, the centre and the right half
//! of every row in line.

use crate::options::PrintOptions;
use vstd::prelude::*;

verus! {

/// A run of `n` gaps.
pub open spec fn gaps<T>(n: nat) -> Seq<Option<T>> {
    Seq::new(n, |i: int| None::<T>)
}

/// The keys of a raw row, each in a cell of its own.
pub open spec fn cells<T>(row: Seq<T>) -> Seq<Option<T>> {
    Seq::new(row.len(), |i: int| Some(row[i]))
}

/// A row of odd length gets one gap at its end.
pub open spec fn with_even_length<T>(row: Seq<Option<T>>) -> Seq<Option<T>> {
    if row.len() % 2 == 1 {
        row.push(None)
    } else {
        row
    }
}

/// The row with `n` gaps between its left half (the first `len / 2` cells)
/// and the rest.
pub open spec fn with_centre_gaps<T>(row: Seq<Option<T>>, n: nat) -> Seq<Option<T>> {
    let centre = (row.len() / 2) as int;
    row.subrange(0, centre) + gaps::<T>(n) + row.subrange(centre, row.len() as int)
}

/// The row between gaps that bring it to `width` cells. Of an odd number of
/// missing cells the back takes the larger share. A row that is wide enough is
/// left alone.
pub open spec fn centred<T>(row: Seq<Option<T>>, width: nat) -> Seq<Option<T>> {
    if row.len() >= width {
        row
    } else {
        let missing = (width - row.len()) as nat;
        gaps::<T>(missing / 2) + row + gaps::<T>((missing - missing / 2) as nat)
    }
}

/// Row `index` of `rows` rows is a thumb row when it is among the last `thumbs`.
pub open spec fn is_thumb_row(index: int, rows: nat, thumbs: nat) -> bool {
    index + thumbs >= rows
}

/// One raw row after parity padding and, unless it is a thumb row, the
/// insertion of `shift` pairs of gaps at its centre.
pub open spec fn shaped_row<T>(row: Seq<T>, thumb: bool, shift: nat) -> Seq<Option<T>> {
    let even = with_even_length(cells(row));
    if thumb {
        even
    } else {
        with_centre_gaps(even, 2 * shift)
    }
}

/// All rows of a layer, each shaped on its own.
pub open spec fn shaped_rows<T>(rows: Seq<Seq<T>>, shift: nat, thumbs: nat) -> Seq<
    Seq<Option<T>>,
> {
    Seq::new(
        rows.len(),
        |i: int| shaped_row(rows[i], is_thumb_row(i, rows.len(), thumbs), shift),
    )
}

/// The length of the longest row; 0 where there is no row.
pub open spec fn max_len<T>(rows: Seq<Seq<T>>) -> nat
    decreases rows.len(),
{
    if rows.len() == 0 {
        0
    } else {
        let before = max_len(rows.drop_last());
        if rows.last().len() > before {
            rows.last().len()
        } else {
            before
        }
    }
}

/// The grid of a layer: every row shaped, then centred in the width of the
/// widest shaped row.
pub open spec fn normalized<T>(rows: Seq<Seq<T>>, shift: nat, thumbs: nat) -> Seq<
    Seq<Option<T>>,
> {
    let shaped = shaped_rows(rows, shift, thumbs);
    Seq::new(shaped.len(), |i: int| centred(shaped[i], max_len(shaped)))
}

/// Every row of `grid` has `width` cells.
pub open spec fn is_rectangular<T>(grid: Seq<Seq<T>>, width: nat) -> bool {
    forall|i: int| 0 <= i < grid.len() ==> (#[trigger] grid[i]).len() == width
}

/// No row is longer than `max_len` says, and where there is a row, one is
/// that long.
pub proof fn lemma_max_len<T>(rows: Seq<Seq<T>>)
    ensures
        forall|i: int| 0 <= i < rows.len() ==> (#[trigger] rows[i]).len() <= max_len(rows),
        rows.len() > 0 ==> exists|i: int| 0 <= i < rows.len() && (#[trigger] rows[i]).len() == max_len(rows),
    decreases rows.len(),
{
    if rows.len() > 0 {
        let init = rows.drop_last();
        lemma_max_len(init);
        assert forall|i: int| 0 <= i < rows.len() implies (#[trigger] rows[i]).len() <= max_len(
            rows,
        ) by {
            if i < init.len() {
                assert(rows[i] == init[i]);
            }
        }
        if rows.last().len() > max_len(init) || init.len() == 0 {
            assert(rows[rows.len() - 1].len() == max_len(rows));
        } else {
            let w = choose|i: int| 0 <= i < init.len() && (#[trigger] init[i]).len() == max_len(init);
            assert(rows[w] == init[w]);
        }
    }
}

/// Parity: after parity padding a row has an even number of cells, and no
/// fewer than before.
pub proof fn lemma_even_length<T>(row: Seq<Option<T>>)
    ensures
        with_even_length(row).len() % 2 == 0,
        row.len() <= with_even_length(row).len() <= row.len() + 1,
{
}

/// A shaped row has an even number of cells and holds at least the keys of
/// its raw row.
pub proof fn lemma_shaped_row_len<T>(row: Seq<T>, thumb: bool, shift: nat)
    ensures
        shaped_row(row, thumb, shift).len() % 2 == 0,
        shaped_row(row, thumb, shift).len() >= row.len(),
{
}

/// Grid rectangularity: every row of a normalised grid has the same number of
/// cells, which is even and no smaller than the length of any raw row. The
/// grid has one row for each raw row.
pub proof fn lemma_normalized_rectangular<T>(rows: Seq<Seq<T>>, shift: nat, thumbs: nat)
    ensures
        normalized(rows, shift, thumbs).len() == rows.len(),
        is_rectangular(normalized(rows, shift, thumbs), grid_width(rows, shift, thumbs)),
        grid_width(rows, shift, thumbs) % 2 == 0,
        forall|i: int| 0 <= i < rows.len() ==> (#[trigger] rows[i]).len() <= grid_width(rows, shift, thumbs),
{
    let shaped = shaped_rows(rows, shift, thumbs);
    lemma_max_len(shaped);
    assert forall|i: int| 0 <= i < rows.len() implies (#[trigger] rows[i]).len() <= max_len(
        shaped,
    ) by {
        lemma_shaped_row_len(rows[i], is_thumb_row(i, rows.len(), thumbs), shift);
        assert(shaped[i].len() <= max_len(shaped));
    }
    if rows.len() > 0 {
        let w = choose|i: int| 0 <= i < shaped.len() && (#[trigger] shaped[i]).len() == max_len(shaped);
        lemma_shaped_row_len(rows[w], is_thumb_row(w, rows.len(), thumbs), shift);
    }
    assert forall|i: int| 0 <= i < normalized(rows, shift, thumbs).len() implies (
    #[trigger] normalized(rows, shift, thumbs)[i]).len() == max_len(shaped) by {
        assert(shaped[i].len() <= max_len(shaped));
    }
}

/// The keys of a row of cells in order, the gaps left out.
pub open spec fn keys_of<T>(row: Seq<Option<T>>) -> Seq<T>
    decreases row.len(),
{
    if row.len() == 0 {
        Seq::empty()
    } else {
        match row.last() {
            Some(key) => keys_of(row.drop_last()).push(key),
            None => keys_of(row.drop_last()),
        }
    }
}

/// The keys of two rows set end to end are the keys of the first and then
/// those of the second.
pub proof fn lemma_keys_of_concat<T>(a: Seq<Option<T>>, b: Seq<Option<T>>)
    ensures
        keys_of(a + b) == keys_of(a) + keys_of(b),
    decreases b.len(),
{
    if b.len() == 0 {
        assert(a + b =~= a);
        assert(keys_of(a) + keys_of(b) =~= keys_of(a));
    } else {
        lemma_keys_of_concat(a, b.drop_last());
        assert((a + b).drop_last() =~= a + b.drop_last());
        assert((a + b).last() == b.last());
        assert(keys_of(a + b) =~= keys_of(a) + keys_of(b));
    }
}

/// A run of gaps holds no key.
pub proof fn lemma_keys_of_gaps<T>(n: nat)
    ensures
        keys_of(gaps::<T>(n)) == Seq::<T>::empty(),
    decreases n,
{
    if n > 0 {
        lemma_keys_of_gaps::<T>((n - 1) as nat);
        assert(gaps::<T>(n).drop_last() =~= gaps::<T>((n - 1) as nat));
    }
}

/// The cells of a raw row hold its keys.
pub proof fn lemma_keys_of_cells<T>(row: Seq<T>)
    ensures
        keys_of(cells(row)) == row,
    decreases row.len(),
{
    if row.len() > 0 {
        lemma_keys_of_cells(row.drop_last());
        assert(cells(row).drop_last() =~= cells(row.drop_last()));
        assert(keys_of(cells(row)) =~= row);
    } else {
        assert(keys_of(cells(row)) =~= row);
    }
}

/// Shaping a row neither loses a key nor changes the order of the keys.
pub proof fn lemma_shaped_row_keeps_keys<T>(row: Seq<T>, thumb: bool, shift: nat)
    ensures
        keys_of(shaped_row(row, thumb, shift)) == row,
{
    let even = with_even_length(cells(row));
    lemma_keys_of_cells(row);
    if cells(row).len() % 2 == 1 {
        assert(even =~= cells(row) + gaps::<T>(1));
        lemma_keys_of_concat(cells(row), gaps::<T>(1));
        lemma_keys_of_gaps::<T>(1);
    }
    assert(keys_of(even) =~= row);
    if !thumb {
        let centre = (even.len() / 2) as int;
        let left = even.subrange(0, centre);
        let right = even.subrange(centre, even.len() as int);
        assert(even =~= left + right);
        lemma_keys_of_concat(left, right);
        lemma_keys_of_gaps::<T>(2 * shift);
        lemma_keys_of_concat(left, gaps::<T>(2 * shift));
        lemma_keys_of_concat(left + gaps::<T>(2 * shift), right);
        assert(keys_of(with_centre_gaps(even, 2 * shift)) =~= keys_of(left) + keys_of(right));
    }
}

/// Normalising a grid neither loses a key nor changes the order of the keys
/// of a row: what it adds is gaps.
pub proof fn lemma_normalized_keeps_keys<T>(rows: Seq<Seq<T>>, shift: nat, thumbs: nat, i: int)
    requires
        0 <= i < rows.len(),
    ensures
        keys_of(normalized(rows, shift, thumbs)[i]) == rows[i],
{
    let shaped = shaped_rows(rows, shift, thumbs);
    let width = max_len(shaped);
    lemma_shaped_row_keeps_keys(rows[i], is_thumb_row(i, rows.len(), thumbs), shift);
    if shaped[i].len() < width {
        let missing = (width - shaped[i].len()) as nat;
        let front = gaps::<T>(missing / 2);
        let back = gaps::<T>((missing - missing / 2) as nat);
        lemma_keys_of_gaps::<T>(missing / 2);
        lemma_keys_of_gaps::<T>((missing - missing / 2) as nat);
        lemma_keys_of_concat(front, shaped[i]);
        lemma_keys_of_concat(front + shaped[i], back);
        assert(keys_of(front + shaped[i] + back) =~= rows[i]);
    }
}

/// Symmetry: the left half of a normalised row holds the keys of the left
/// half of its raw row, and the right half those of the right half, where
/// a raw row of odd length counts with the gap that makes it even.
pub proof fn lemma_normalized_keeps_halves<T>(rows: Seq<Seq<T>>, shift: nat, thumbs: nat, i: int)
    requires
        0 <= i < rows.len(),
    ensures
        ({
            let row = normalized(rows, shift, thumbs)[i];
            let even = with_even_length(cells(rows[i]));
            let half = (even.len() / 2) as int;
            let centre = (row.len() / 2) as int;
            &&& keys_of(row.subrange(0, centre)) == keys_of(even.subrange(0, half))
            &&& keys_of(row.subrange(centre, row.len() as int)) == keys_of(
                even.subrange(half, even.len() as int),
            )
        }),
{
    let shaped = shaped_rows(rows, shift, thumbs);
    let width = max_len(shaped);
    let row = normalized(rows, shift, thumbs)[i];
    let even = with_even_length(cells(rows[i]));
    let half = (even.len() / 2) as int;
    let left = even.subrange(0, half);
    let right = even.subrange(half, even.len() as int);
    let inner: nat = if is_thumb_row(i, rows.len(), thumbs) {
        0
    } else {
        shift
    };
    lemma_max_len(shaped);
    lemma_normalized_rectangular(rows, shift, thumbs);
    assert(shaped[i].len() <= width);
    assert(shaped[i] =~= left + gaps::<T>(inner) + gaps::<T>(inner) + right);
    let missing = (width - shaped[i].len()) as nat;
    let outer = missing / 2;
    assert(missing == 2 * outer);
    assert(row =~= gaps::<T>(outer) + left + gaps::<T>(inner) + gaps::<T>(inner) + right + gaps::<T>(
        outer,
    ));
    let centre = (row.len() / 2) as int;
    assert(centre == outer + half + inner);
    assert(row.subrange(0, centre) =~= gaps::<T>(outer) + left + gaps::<T>(inner));
    assert(row.subrange(centre, row.len() as int) =~= gaps::<T>(inner) + right + gaps::<T>(outer));
    lemma_keys_of_gaps::<T>(outer);
    lemma_keys_of_gaps::<T>(inner);
    lemma_keys_of_concat(gaps::<T>(outer), left);
    lemma_keys_of_concat(gaps::<T>(outer) + left, gaps::<T>(inner));
    lemma_keys_of_concat(gaps::<T>(inner), right);
    lemma_keys_of_concat(gaps::<T>(inner) + right, gaps::<T>(outer));
    assert(keys_of(gaps::<T>(outer) + left + gaps::<T>(inner)) =~= keys_of(left));
    assert(keys_of(gaps::<T>(inner) + right + gaps::<T>(outer)) =~= keys_of(right));
}

/// The number of columns of the normalised grid.
pub open spec fn grid_width<T>(rows: Seq<Seq<T>>, shift: nat, thumbs: nat) -> nat {
    max_len(shaped_rows(rows, shift, thumbs))
}

/// Parity padding: appends one gap to a row of odd length.
pub fn pad_even(row: &mut Vec<Option<String>>)
    ensures
        final(row).deep_view() == with_even_length(old(row).deep_view()),
        final(row).len() % 2 == 0,
{
    if row.len() % 2 != 0 {
        row.push(None);
        assert(row.deep_view() =~= old(row).deep_view().push(None));
    }
}

/// Thumb-shift insertion: inserts `pairs * 2` gaps at the centre of the row,
/// one at a time, at the centre that the row has by then.
pub fn shift_in(row: &mut Vec<Option<String>>, pairs: usize)
    ensures
        final(row).deep_view() == with_centre_gaps(old(row).deep_view(), 2 * (pairs as nat)),
{
    let ghost start = old(row).deep_view();
    let ghost half: int = start.len() as int / 2;
    assert(row.deep_view() =~= with_centre_gaps(start, 0));
    let mut done: usize = 0;
    while done < pairs
        invariant
            done <= pairs,
            half == start.len() / 2,
            row.deep_view() == with_centre_gaps(start, 2 * (done as nat)),
        decreases pairs - done,
    {
        let ghost before = row.deep_view();
        let centre = row.len() / 2;
        row.insert(centre, None);
        assert(row.deep_view() =~= before.insert(centre as int, None));
        assert(row.deep_view() =~= with_centre_gaps(start, 2 * (done as nat) + 1));
        let ghost between = row.deep_view();
        let centre = row.len() / 2;
        row.insert(centre, None);
        assert(row.deep_view() =~= between.insert(centre as int, None));
        assert(row.deep_view() =~= with_centre_gaps(start, 2 * (done as nat) + 2));
        done += 1;
    }
}

/// Width unification: pushes gaps onto the back and the front of the row in
/// turn, the back first, until it has `width` cells.
pub fn widen(row: &mut Vec<Option<String>>, width: usize)
    ensures
        final(row).deep_view() == centred(old(row).deep_view(), width as nat),
{
    let ghost start = old(row).deep_view();
    let ghost front: nat = 0;
    let ghost back: nat = 0;
    assert(row.deep_view() =~= gaps::<Seq<char>>(0) + start + gaps::<Seq<char>>(0));
    let mut at_back = true;
    while row.len() < width
        invariant
            row.deep_view() == gaps::<Seq<char>>(front) + start + gaps::<Seq<char>>(back),
            at_back ==> back == front,
            !at_back ==> back == front + 1,
            row.len() <= width || row.len() == start.len(),
        decreases width - row.len(),
    {
        let ghost before = row.deep_view();
        if at_back {
            row.push(None);
            assert(row.deep_view() =~= before.push(None));
            proof {
                back = back + 1;
            }
        } else {
            row.insert(0, None);
            assert(row.deep_view() =~= before.insert(0, None));
            proof {
                front = front + 1;
            }
        }
        assert(row.deep_view() =~= gaps::<Seq<char>>(front) + start + gaps::<Seq<char>>(back));
        at_back = !at_back;
    }
    assert(row.deep_view() =~= centred(start, width as nat));
}

/// The keys of a raw row as cells.
fn to_cells(keys: &Vec<String>) -> (row: Vec<Option<String>>)
    ensures
        row.deep_view() == cells(keys.deep_view()),
{
    let mut row: Vec<Option<String>> = Vec::new();
    let mut i: usize = 0;
    while i < keys.len()
        invariant
            i <= keys.len(),
            row.deep_view() == cells(keys.deep_view().take(i as int)),
        decreases keys.len() - i,
    {
        let ghost before = row.deep_view();
        row.push(Some(keys[i].clone()));
        assert(row.deep_view() =~= before.push(Some(keys[i as int]@)));
        assert(row.deep_view() =~= cells(keys.deep_view().take(i + 1)));
        i += 1;
    }
    assert(keys.deep_view().take(keys.len() as int) =~= keys.deep_view());
    row
}

/// Builds the grid of a layer from its raw rows. Each row is padded to an
/// even length, each row but the last `number_of_thumbs` gets
/// `thumb_shift_in` pairs of gaps at its centre, and every row is then
/// centred in the width of the widest.
pub fn create_grid(line_codes: Vec<Vec<String>>, ops: &PrintOptions) -> (grid: Vec<
    Vec<Option<String>>,
>)
    ensures
        grid.deep_view() == normalized(
            line_codes.deep_view(),
            ops.thumb_shift_in as nat,
            ops.number_of_thumbs as nat,
        ),
        grid.len() == line_codes.len(),
        is_rectangular(
            grid.deep_view(),
            grid_width(
                line_codes.deep_view(),
                ops.thumb_shift_in as nat,
                ops.number_of_thumbs as nat,
            ),
        ),
        forall|i: int|
            0 <= i < line_codes.len() ==> (#[trigger] line_codes[i]).len() <= grid_width(
                line_codes.deep_view(),
                ops.thumb_shift_in as nat,
                ops.number_of_thumbs as nat,
            ),
{
    let ghost raw = line_codes.deep_view();
    let ghost shift = ops.thumb_shift_in as nat;
    let ghost thumbs = ops.number_of_thumbs as nat;
    let ghost shaped = shaped_rows(raw, shift, thumbs);
    let rows = line_codes.len();
    let mut grid: Vec<Vec<Option<String>>> = Vec::new();
    let mut width: usize = 0;
    let mut li: usize = 0;
    while li < rows
        invariant
            li <= rows,
            rows == line_codes.len(),
            raw == line_codes.deep_view(),
            shift == ops.thumb_shift_in as nat,
            thumbs == ops.number_of_thumbs as nat,
            shaped == shaped_rows(raw, shift, thumbs),
            grid.deep_view() == shaped.take(li as int),
            width == max_len(shaped.take(li as int)),
        decreases rows - li,
    {
        let ghost before = grid.deep_view();
        let mut row = to_cells(&line_codes[li]);
        pad_even(&mut row);
        if ops.number_of_thumbs < rows - li {
            shift_in(&mut row, ops.thumb_shift_in);
        }
        assert(row.deep_view() == shaped[li as int]);
        assert(shaped.take(li + 1).drop_last() =~= shaped.take(li as int));
        if row.len() > width {
            width = row.len();
        }
        grid.push(row);
        assert(grid.deep_view() =~= before.push(shaped[li as int]));
        assert(grid.deep_view() =~= shaped.take(li + 1));
        li += 1;
    }
    assert(shaped.take(rows as int) =~= shaped);
    let mut li: usize = 0;
    while li < rows
        invariant
            li <= rows,
            rows == grid.len(),
            shaped.len() == rows,
            width == max_len(shaped),
            forall|i: int| 0 <= i < li ==> (#[trigger] grid[i]).deep_view() == centred(shaped[i], width as nat),
            forall|i: int| li <= i < rows ==> (#[trigger] grid[i]).deep_view() == shaped[i],
        decreases rows - li,
    {
        widen(&mut grid[li], width);
        li += 1;
    }
    assert(grid.deep_view() =~= normalized(raw, shift, thumbs));
    proof {
        lemma_normalized_rectangular(raw, shift, thumbs);
        assert forall|i: int| 0 <= i < line_codes.len() implies (#[trigger] line_codes[i]).len()
            <= grid_width(raw, shift, thumbs) by {
            assert(raw[i].len() == line_codes[i].len());
        }
    }
    grid
}

} // verus!
