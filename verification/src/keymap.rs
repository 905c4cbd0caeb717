//! The keymap model, and how a keymap is built from a parsed program.

use crate::ast::{row_trees, rows_trees, KeyTree, LayerBlock, LayerBlockTree, Program};
use crate::error::{KeymapError, MyError};
use crate::grid::{create_grid, lemma_normalized_rectangular, normalized};
use crate::options::PrintOptions;
use crate::reduce::{format_pair, render_key};
use vstd::prelude::*;

verus! {

/// One layer of a keymap.
#[derive(Debug, PartialEq, Eq)]
pub struct Layer {
    /// The label between the square brackets, as written.
    pub num: String,
    /// The name of the layout macro.
    pub name: String,
    /// The normalised grid: a key text, or `None` for a gap.
    pub keys: Vec<Vec<Option<String>>>,
}

/// A keymap: its layers in the order in which they were written.
#[derive(Debug, PartialEq, Eq)]
pub struct Keymap {
    pub layers: Vec<Layer>,
}

/// A grid of optional key texts as a mathematical value.
pub type GridView = Seq<Seq<Option<Seq<char>>>>;

/// A layer as a mathematical value.
pub ghost struct LayerView {
    pub num: Seq<char>,
    pub name: Seq<char>,
    pub keys: GridView,
}

impl View for Layer {
    type V = LayerView;

    open spec fn view(&self) -> LayerView {
        LayerView { num: self.num@, name: self.name@, keys: self.keys.deep_view() }
    }
}

impl View for Keymap {
    type V = Seq<LayerView>;

    open spec fn view(&self) -> Seq<LayerView> {
        Seq::new(self.layers.len() as nat, |i: int| self.layers[i]@)
    }
}

/// What holds of every keymap that was built from a program: it has a layer,
/// every layer has as many rows as the first, which has one at least, and
/// the rows of a layer are all of one length.
pub open spec fn well_formed(layers: Seq<LayerView>) -> bool {
    &&& layers.len() > 0
    &&& layers[0].keys.len() > 0
    &&& forall|l: int| 0 <= l < layers.len() ==> (#[trigger] layers[l]).keys.len() == layers[0].keys.len()
    &&& forall|l: int, r: int|
        0 <= l < layers.len() && 0 <= r < layers[l].keys.len() ==> (#[trigger] layers[l].keys[r]).len()
            == layers[l].keys[0].len()
}

/// The canonical texts of the keys of the rows of a layer.
pub open spec fn row_texts(rows: Seq<Seq<KeyTree>>) -> Seq<Seq<Seq<char>>> {
    Seq::new(rows.len(), |i: int| Seq::new(rows[i].len(), |j: int| render_key(rows[i][j])))
}

/// The layer that comes of a layer block: its label, its name, and the
/// normalised grid of the canonical texts of its keys.
pub open spec fn layer_view_of(block: LayerBlockTree, ops: PrintOptions) -> LayerView {
    LayerView {
        num: block.num,
        name: block.name,
        keys: normalized(
            row_texts(block.rows),
            ops.thumb_shift_in as nat,
            ops.number_of_thumbs as nat,
        ),
    }
}

/// The keymap that comes of a program, or why none does: the program has no
/// layer block, or else a block has no row, or else a block has another
/// number of rows than the first.
pub open spec fn keymap_of(blocks: Seq<LayerBlockTree>, ops: PrintOptions) -> Result<
    Seq<LayerView>,
    KeymapError,
> {
    if blocks.len() == 0 {
        Err(KeymapError::NoLayers)
    } else if exists|i: int| 0 <= i < blocks.len() && (#[trigger] blocks[i]).rows.len() == 0 {
        Err(KeymapError::NoRows)
    } else if exists|i: int|
        0 <= i < blocks.len() && (#[trigger] blocks[i]).rows.len() != blocks[0].rows.len() {
        Err(KeymapError::RowCountMismatch)
    } else {
        Ok(Seq::new(blocks.len(), |i: int| layer_view_of(blocks[i], ops)))
    }
}

/// Grid rectangularity and the cross-layer invariant: a keymap that comes of
/// a program is well formed, has one layer for each block of the program in
/// the same order, and no row of it is shorter than the row it was made of.
pub proof fn lemma_keymap_of_well_formed(blocks: Seq<LayerBlockTree>, ops: PrintOptions)
    ensures
        keymap_of(blocks, ops) matches Ok(layers) ==> {
            &&& well_formed(layers)
            &&& layers.len() == blocks.len()
            &&& forall|l: int, r: int|
                0 <= l < blocks.len() && 0 <= r < blocks[l].rows.len() ==> {
                    &&& layers[l].keys.len() == blocks[l].rows.len()
                    &&& (#[trigger] layers[l].keys[r]).len() >= blocks[l].rows[r].len()
                }
        },
{
    if let Ok(layers) = keymap_of(blocks, ops) {
        let shift = ops.thumb_shift_in as nat;
        let thumbs = ops.number_of_thumbs as nat;
        assert forall|l: int| 0 <= l < layers.len() implies (#[trigger] layers[l]).keys.len()
            == blocks[l].rows.len() by {
            lemma_normalized_rectangular(row_texts(blocks[l].rows), shift, thumbs);
        }
        assert forall|l: int, r: int|
            0 <= l < layers.len() && 0 <= r < layers[l].keys.len() implies (
        #[trigger] layers[l].keys[r]).len() == layers[l].keys[0].len() && layers[l].keys[r].len()
            >= blocks[l].rows[r].len() by {
            lemma_normalized_rectangular(row_texts(blocks[l].rows), shift, thumbs);
            assert(row_texts(blocks[l].rows)[r].len() == blocks[l].rows[r].len());
        }
        assert(blocks[0].rows.len() != 0);
        assert forall|l: int| 0 <= l < layers.len() implies (#[trigger] layers[l]).keys.len()
            == layers[0].keys.len() by {
            assert(blocks[l].rows.len() == blocks[0].rows.len());
        }
    }
}

/// Sees that a layer has a row.
pub fn validate(line_codes: &Vec<Vec<String>>) -> (r: Result<(), MyError>)
    ensures
        line_codes.len() > 0 ==> r is Ok,
        line_codes.len() == 0 ==> r == Err::<(), MyError>(
            MyError::KeymapError(KeymapError::NoRows),
        ),
{
    if line_codes.len() == 0 {
        return Err(MyError::KeymapError(KeymapError::NoRows));
    }
    Ok(())
}

/// The canonical texts of the keys of a layer block, row by row.
fn key_texts(block: &LayerBlock, ops: &PrintOptions) -> (texts: Vec<Vec<String>>)
    ensures
        texts.deep_view() == row_texts(block@.rows),
        texts.len() == block.rows.len(),
{
    let ghost trees = block@.rows;
    let mut texts: Vec<Vec<String>> = Vec::new();
    let mut r: usize = 0;
    while r < block.rows.len()
        invariant
            r <= block.rows.len(),
            trees == rows_trees(block.rows@),
            texts.len() == r,
            texts.deep_view() == row_texts(trees).take(r as int),
        decreases block.rows.len() - r,
    {
        let row = &block.rows[r];
        let mut line: Vec<String> = Vec::new();
        let mut c: usize = 0;
        while c < row.len()
            invariant
                c <= row.len(),
                r < block.rows.len(),
                trees == rows_trees(block.rows@),
                row == &block.rows[r as int],
                line.deep_view() == row_texts(trees)[r as int].take(c as int),
            decreases row.len() - c,
        {
            let ghost before = line.deep_view();
            let text = format_pair(&row[c], ops);
            line.push(text);
            assert(trees[r as int] == row_trees(row@));
            assert(line.deep_view() =~= before.push(render_key(row[c as int]@)));
            assert(line.deep_view() =~= row_texts(trees)[r as int].take(c + 1));
            c += 1;
        }
        assert(trees[r as int] == row_trees(row@));
        assert(row_texts(trees)[r as int].take(row.len() as int) =~= row_texts(trees)[r as int]);
        let ghost before = texts.deep_view();
        texts.push(line);
        assert(texts.deep_view() =~= before.push(row_texts(trees)[r as int]));
        assert(texts.deep_view() =~= row_texts(trees).take(r + 1));
        r += 1;
    }
    assert(row_texts(trees).take(block.rows.len() as int) =~= row_texts(trees));
    texts
}

/// Builds the layer of a layer block: renders each key, sees that there is a
/// row, and normalises the grid.
pub fn get_layer(block: &LayerBlock, ops: &PrintOptions) -> (r: Result<Layer, MyError>)
    ensures
        match r {
            Ok(layer) => block.rows.len() > 0 && layer@ == layer_view_of(block@, *ops),
            Err(e) => block.rows.len() == 0 && e == MyError::KeymapError(KeymapError::NoRows),
        },
{
    let line_codes = key_texts(block, ops);
    match validate(&line_codes) {
        Err(e) => Err(e),
        Ok(()) => {
            let grid = create_grid(line_codes, ops);
            Ok(Layer { num: block.num.clone(), name: block.name.clone(), keys: grid })
        },
    }
}

/// Builds the keymap of a program: one layer for each layer block, in
/// order. Fails where the program has no layer block, where a block has no
/// row, and where two blocks differ in their number of rows.
pub fn get_keymap(program: &Program, ops: &PrintOptions) -> (r: Result<Keymap, MyError>)
    ensures
        match r {
            Ok(keymap) => keymap_of(program@, *ops) == Ok::<Seq<LayerView>, KeymapError>(keymap@)
                && well_formed(keymap@),
            Err(e) => e matches MyError::KeymapError(why) && keymap_of(program@, *ops) == Err::<
                Seq<LayerView>,
                KeymapError,
            >(why),
        },
{
    let ghost blocks = program@;
    let count = program.blocks.len();
    if count == 0 {
        return Err(MyError::KeymapError(KeymapError::NoLayers));
    }
    let mut layers: Vec<Layer> = Vec::new();
    let mut i: usize = 0;
    while i < count
        invariant
            i <= count,
            count == program.blocks.len(),
            blocks == program@,
            layers.len() == i,
            forall|j: int| 0 <= j < i ==> (#[trigger] blocks[j]).rows.len() > 0,
            forall|j: int| 0 <= j < i ==> (#[trigger] layers[j])@ == layer_view_of(blocks[j], *ops),
        decreases count - i,
    {
        assert(blocks[i as int] == program.blocks[i as int]@);
        assert(blocks[i as int].rows.len() == program.blocks[i as int].rows.len());
        match get_layer(&program.blocks[i], ops) {
            Err(e) => {
                return Err(e);
            },
            Ok(layer) => {
                layers.push(layer);
            },
        }
        i += 1;
    }
    proof {
        assert forall|j: int| 0 <= j < count implies (#[trigger] layers[j]).keys.len()
            == blocks[j].rows.len() by {
            lemma_normalized_rectangular(
                row_texts(blocks[j].rows),
                ops.thumb_shift_in as nat,
                ops.number_of_thumbs as nat,
            );
            assert(layers[j]@.keys.len() == layers[j].keys.len());
        }
    }
    let rows = layers[0].keys.len();
    let mut i: usize = 0;
    while i < count
        invariant
            i <= count,
            count == layers.len(),
            count == blocks.len(),
            count > 0,
            blocks == program@,
            rows == blocks[0].rows.len(),
            forall|j: int| 0 <= j < count ==> (#[trigger] layers[j]).keys.len() == blocks[j].rows.len(),
            forall|j: int| 0 <= j < count ==> (#[trigger] blocks[j]).rows.len() > 0,
            forall|j: int| 0 <= j < i ==> (#[trigger] blocks[j]).rows.len() == rows,
        decreases count - i,
    {
        if layers[i].keys.len() != rows {
            assert(blocks[i as int].rows.len() != blocks[0].rows.len());
            return Err(MyError::KeymapError(KeymapError::RowCountMismatch));
        }
        i += 1;
    }
    let keymap = Keymap { layers };
    proof {
        assert(keymap@ =~= Seq::new(blocks.len(), |i: int| layer_view_of(blocks[i], *ops)));
        lemma_keymap_of_well_formed(blocks, *ops);
    }
    Ok(keymap)
}

} // verus!
