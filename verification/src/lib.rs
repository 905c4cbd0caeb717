//! Parsing, normalising and pretty-printing of split-keyboard keymaps.
//!
//! A source text is split into tokens (`token`), parsed into a program of
//! layer blocks (`grammar`, `myparser`), built into a keymap whose layers
//! are rectangular grids of optional key texts (`keymap`, `grid`), and
//! printed again with aligned columns (`printer`) or drawn as a diagram
//! (`key`, `drawsvg`).
//!
//! What holds of all of it is proved where it is stated: a grid is
//! rectangular and keeps every key in its half of the row (`grid`), the
//! canonical text of a key expression parses to that key expression
//! (`roundtrip`), and the printed text of a keymap parses to the program the
//! keymap was built from (`reparse`).

pub mod ast;
pub mod diagnostics;
pub mod drawsvg;
pub mod error;
pub mod grammar;
pub mod grid;
pub mod key;
pub mod keymap;
pub mod myparser;
pub mod options;
pub mod printer;
pub mod reduce;
pub mod reparse;
pub mod roundtrip;
pub mod text;
pub mod token;

pub use ast::{Key, LayerBlock, Param, Program};
pub use diagnostics::{into_diagnostics, SyntaxError};
pub use drawsvg::create_svg;
pub use error::{KeymapError, MyError};
pub use grid::create_grid;
pub use key::{nice_code, PrintKey};
pub use keymap::{get_keymap, get_layer, validate, Keymap, Layer};
pub use myparser::MyParser;
pub use options::PrintOptions;
pub use printer::keymap_string;
pub use reduce::format_pair;
pub use token::TokenKind;

use vstd::prelude::*;

verus! {

/// The diagram and the printed text of the keymap that a text holds, both
/// made with the default options: the diagram first. Fails where the text
/// is no program, and where the program is no keymap.
pub fn generate_svg(example: &str) -> (r: Result<Vec<String>, MyError>)
    ensures
        match r {
            Ok(out) => grammar::program_of(example@) matches Ok(trees) && keymap::keymap_of(
                trees,
                PrintOptions::spec_default(),
            ) matches Ok(layers) && out.len() == 2 && out[0]@ == drawsvg::sheet_markup(
                drawsvg::sheet_of(layers, PrintOptions::spec_default()),
            ) && out[1]@ == printer::keymap_text(layers, PrintOptions::spec_default()),
            Err(MyError::ParseError(e)) => grammar::program_of(example@) matches Err(fault) && e@
                == diagnostics::syntax_error(example@, fault),
            Err(MyError::KeymapError(why)) => grammar::program_of(example@) matches Ok(trees)
                && keymap::keymap_of(trees, PrintOptions::spec_default()) == Err::<
                Seq<keymap::LayerView>,
                KeymapError,
            >(why),
        },
{
    let ops = PrintOptions::new();
    let prog = match MyParser::parse_program(example) {
        Ok(prog) => prog,
        Err(e) => {
            return Err(MyError::ParseError(e));
        },
    };
    let keymap = match get_keymap(&prog, &ops) {
        Ok(keymap) => keymap,
        Err(e) => {
            return Err(e);
        },
    };
    let mut out: Vec<String> = Vec::new();
    out.push(create_svg(&keymap, &ops));
    out.push(keymap_string(&keymap, &ops));
    Ok(out)
}

} // verus!
