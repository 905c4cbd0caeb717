//! Options that steer grid normalisation and printing.

use vstd::prelude::*;

verus! {

/// Caller-supplied switches for building and printing a keymap.
#[derive(Clone, Copy, Debug)]
pub struct PrintOptions {
    /// Pairs of gaps inserted at the centre of every row that is not a thumb row.
    pub thumb_shift_in: usize,
    /// Left-justify the keys of the left half instead of right-justifying them.
    pub left_align: bool,
    /// Width, in blanks, of the gutter between the two halves.
    pub split_space: usize,
    /// Share column widths between all layers instead of measuring each layer alone.
    pub align_layers: bool,
    /// Number of trailing rows that count as thumb rows.
    pub number_of_thumbs: usize,
    /// Set by callers that want glyphs in the diagram. The diagram shows
    /// glyphs whatever this says.
    pub draw_nice: bool,
}

impl PrintOptions {
    /// The default options.
    pub fn new() -> (ops: PrintOptions)
        ensures
            ops == PrintOptions::spec_default(),
    {
        PrintOptions {
            thumb_shift_in: 1,
            left_align: false,
            split_space: 5,
            align_layers: true,
            number_of_thumbs: 1,
            draw_nice: false,
        }
    }

    /// The value that `new` and `default` return.
    pub open spec fn spec_default() -> PrintOptions {
        PrintOptions {
            thumb_shift_in: 1,
            left_align: false,
            split_space: 5,
            align_layers: true,
            number_of_thumbs: 1,
            draw_nice: false,
        }
    }
}

impl Default for PrintOptions {
    fn default() -> (ops: PrintOptions)
        ensures
            ops == PrintOptions::spec_default(),
    {
        PrintOptions::new()
    }
}

} // verus!
