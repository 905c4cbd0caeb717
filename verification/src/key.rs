//! Display glyphs for key expressions: what a key cap shows at its top, in
//! its middle and at its bottom.

use crate::ast::{Key, KeyTree, Param, ParamTree};
use crate::myparser::MyParser;
use crate::reduce::{format_pair, render_key, render_param};
use crate::options::PrintOptions;
use crate::text::{chars_equal, chars_start_with, from_chars, to_chars};
use vstd::prelude::*;
use vstd::string::StringExecFns;

verus! {

/// What a key cap shows.
#[derive(Debug, PartialEq, Eq)]
pub struct PrintKey {
    pub top: String,
    pub middle: String,
    pub bottom: String,
}

/// What a key cap shows, as a mathematical value.
pub ghost struct PrintKeyView {
    pub top: Seq<char>,
    pub middle: Seq<char>,
    pub bottom: Seq<char>,
}

impl View for PrintKey {
    type V = PrintKeyView;

    open spec fn view(&self) -> PrintKeyView {
        PrintKeyView { top: self.top@, middle: self.middle@, bottom: self.bottom@ }
    }
}

/// A key cap that shows `middle` and nothing else.
pub open spec fn plain(middle: Seq<char>) -> PrintKeyView {
    PrintKeyView { top: Seq::empty(), middle, bottom: Seq::empty() }
}

/// A key cap that shows `middle`, and `top` above it.
pub open spec fn topped(middle: Seq<char>, top: Seq<char>) -> PrintKeyView {
    PrintKeyView { top, middle, bottom: Seq::empty() }
}

impl PrintKey {
    /// A key cap that shows `middle` and nothing else.
    pub fn new(middle: &str) -> (cap: PrintKey)
        ensures
            cap@ == plain(middle@),
    {
        PrintKey { top: String::new(), middle: String::from_str(middle), bottom: String::new() }
    }

    /// A key cap that shows `mid`, and `top` above it.
    fn mt(mid: &str, top: &str) -> (cap: PrintKey)
        ensures
            cap@ == topped(mid@, top@),
    {
        PrintKey { top: String::from_str(top), middle: String::from_str(mid), bottom: String::new() }
    }
}

impl Default for PrintKey {
    fn default() -> (cap: PrintKey)
        ensures
            cap@ == plain(Seq::empty()),
    {
        PrintKey { top: String::new(), middle: String::new(), bottom: String::new() }
    }
}

/// `text` begins with `prefix`.
pub open spec fn has_prefix(text: Seq<char>, prefix: Seq<char>) -> bool {
    prefix.len() <= text.len() && text.subrange(0, prefix.len() as int) == prefix
}

/// The key cap of a key code: its glyph where the code has one, the code
/// without `KC_` where it begins with that, else the code as it is.
pub open spec fn nice_keycode_view(code: Seq<char>) -> PrintKeyView {
    if code == "KC_UP"@ {
        plain("↑"@)
    } else if code == "KC_DOWN"@ {
        plain("↓"@)
    } else if code == "KC_LEFT"@ {
        plain("←"@)
    } else if code == "KC_RGHT"@ || code == "KC_RIGHT"@ {
        plain("→"@)
    } else if code == "KC_NO"@ || code == "XXXXXXX"@ {
        plain(""@)
    } else if code == "KC_DOT"@ {
        topped("."@, ">"@)
    } else if code == "KC_COMM"@ {
        topped(","@, "<"@)
    } else if code == "KC_SLSH"@ {
        topped("/"@, "?"@)
    } else if code == "KC_BSLS"@ {
        topped("\\"@, "|"@)
    } else if code == "KC_ENT"@ {
        plain("↵"@)
    } else if code == "KC_BSPC"@ {
        plain("⌫"@)
    } else if code == "KC_SPC"@ {
        plain("␣"@)
    } else if code == "KC_TAB"@ {
        plain("⇥"@)
    } else if code == "KC_DEL"@ {
        plain("⌦"@)
    } else if code == "KC_GRV"@ {
        topped("`"@, "~"@)
    } else if code == "KC_LBRC"@ {
        topped("["@, "{"@)
    } else if code == "KC_RBRC"@ {
        topped("]"@, "}"@)
    } else if code == "KC_SCLN"@ {
        topped(";"@, ":"@)
    } else if code == "KC_EQL"@ {
        topped("="@, "+"@)
    } else if code == "KC_MINS"@ {
        topped("-"@, "_"@)
    } else if code == "KC_CAPS"@ {
        plain("⇪"@)
    } else if code == "KC_QUOT"@ || code == "KC_QUOTE"@ {
        topped("'"@, "\""@)
    } else if code == "KC_LCTL"@ || code == "KC_RCTL"@ {
        plain("⌃"@)
    } else if code == "KC_LSFT"@ || code == "KC_RSFT"@ {
        plain("⇧"@)
    } else if code == "KC_LALT"@ || code == "KC_RALT"@ {
        plain("⌥"@)
    } else if code == "KC_LGUI"@ || code == "KC_RGUI"@ {
        plain("⌘"@)
    } else if code == "KC_1"@ {
        topped("1"@, "!"@)
    } else if code == "KC_2"@ {
        topped("2"@, "@"@)
    } else if code == "KC_3"@ {
        topped("3"@, "#"@)
    } else if code == "KC_4"@ {
        topped("4"@, "$"@)
    } else if code == "KC_5"@ {
        topped("5"@, "%"@)
    } else if code == "KC_6"@ {
        topped("6"@, "^"@)
    } else if code == "KC_7"@ {
        topped("7"@, "&"@)
    } else if code == "KC_8"@ {
        topped("8"@, "*"@)
    } else if code == "KC_9"@ {
        topped("9"@, "("@)
    } else if code == "KC_0"@ {
        topped("0"@, ")"@)
    } else if code == "KC_TRNS"@ || code == "_______"@ {
        plain("⇄"@)
    } else if code == "KC_PDOT"@ {
        topped("."@, "⌦"@)
    } else if code == "KC_P1"@ {
        topped("1"@, "End"@)
    } else if code == "KC_P2"@ {
        topped("2"@, "↓"@)
    } else if code == "KC_P3"@ {
        topped("3"@, "PgDn"@)
    } else if code == "KC_P4"@ {
        topped("4"@, "←"@)
    } else if code == "KC_P5"@ {
        topped("5"@, "Clear"@)
    } else if code == "KC_P6"@ {
        topped("6"@, "→"@)
    } else if code == "KC_P7"@ {
        topped("7"@, "Home"@)
    } else if code == "KC_P8"@ {
        topped("8"@, "↑"@)
    } else if code == "KC_P9"@ {
        topped("9"@, "PgUp"@)
    } else if code == "KC_P0"@ {
        topped("0"@, "Ins"@)
    } else if code == "KC_PPLS"@ {
        plain("+"@)
    } else if code == "KC_PMNS"@ {
        plain("-"@)
    } else if code == "KC_PAST"@ {
        plain("*"@)
    } else if code == "KC_PSLS"@ {
        plain("/"@)
    } else if code == "KC_PEQL"@ {
        plain("="@)
    } else if code == "KC_EXLM"@ {
        plain("!"@)
    } else if code == "KC_AT"@ {
        plain("@"@)
    } else if code == "KC_HASH"@ {
        plain("#"@)
    } else if code == "KC_DLR"@ {
        plain("$"@)
    } else if code == "KC_PERC"@ {
        plain("%"@)
    } else if code == "KC_CIRC"@ {
        plain("^"@)
    } else if code == "KC_AMPR"@ {
        plain("&"@)
    } else if code == "KC_ASTR"@ {
        plain("*"@)
    } else if code == "KC_LPRN"@ {
        plain("("@)
    } else if code == "KC_RPRN"@ {
        plain(")"@)
    } else if code == "KC_TILD"@ {
        plain("~"@)
    } else if code == "KC_LCBR"@ {
        plain("{"@)
    } else if code == "KC_RCBR"@ {
        plain("}"@)
    } else if code == "KC_COLN"@ {
        plain(":"@)
    } else if code == "KC_PLUS"@ {
        plain("+"@)
    } else if code == "KC_UNDS"@ {
        plain("_"@)
    } else if code == "KC_PIPE"@ {
        plain("|"@)
    } else if code == "KC_LT"@ {
        plain("<"@)
    } else if code == "KC_GT"@ {
        plain(">"@)
    } else if code == "KC_QUES"@ {
        plain("?"@)
    } else if code == "KC_DQUO"@ {
        plain("\""@)
    } else if has_prefix(code, "KC_"@) {
        plain(code.skip(3))
    } else {
        plain(code)
    }
}

/// What a key shows at its bottom while the modifier named by a mod-tap
/// function is held.
pub open spec fn hold_glyph(name: Seq<char>) -> Option<Seq<char>> {
    if name == "LSFT_T"@ || name == "RSFT_T"@ || name == "SFT_T"@ {
        Some("⇧"@)
    } else if name == "LCTL_T"@ || name == "RCTL_T"@ || name == "CTL_T"@ {
        Some("⌃"@)
    } else if name == "LALT_T"@ || name == "RALT_T"@ || name == "ALT_T"@ {
        Some("⌥"@)
    } else if name == "LGUI_T"@ || name == "RGUI_T"@ || name == "GUI_T"@ {
        Some("⌘"@)
    } else if name == "MEH_T"@ {
        Some("MEH"@)
    } else if name == "HYPR"@ || name == "ALL_T"@ {
        Some("HYPR"@)
    } else {
        None
    }
}

/// What a modifier function puts before the key it modifies.
pub open spec fn chord_glyph(name: Seq<char>) -> Option<Seq<char>> {
    if name == "S"@ || name == "LSFT"@ {
        Some("⇧"@)
    } else if name == "C"@ || name == "LCTL"@ {
        Some("⌃"@)
    } else if name == "A"@ || name == "LALT"@ {
        Some("⌥"@)
    } else if name == "G"@ || name == "LGUI"@ {
        Some("⌘"@)
    } else {
        None
    }
}

/// The key cap of a key expression. A layer-tap `LT(layer, key)` shows the
/// key and, at the bottom, `L-` and the layer. A mod-tap shows the key and,
/// at the bottom, the modifier. A modifier function shows the modifier
/// before the key. Any other call shows its canonical text.
pub open spec fn nice_key_view(k: KeyTree) -> PrintKeyView
    decreases k,
{
    match k {
        KeyTree::KeyCode(name) => nice_keycode_view(name),
        KeyTree::FunctionCall(name, list) => {
            if name == "LT"@ && list.len() == 2 {
                PrintKeyView {
                    top: nice_param_view(list[1]).top,
                    middle: nice_param_view(list[1]).middle,
                    bottom: "L-"@ + render_param(list[0]),
                }
            } else if list.len() == 1 && hold_glyph(name) is Some {
                PrintKeyView {
                    top: nice_param_view(list[0]).top,
                    middle: nice_param_view(list[0]).middle,
                    bottom: hold_glyph(name)->0,
                }
            } else if list.len() == 1 && chord_glyph(name) is Some {
                topped(
                    chord_glyph(name)->0 + nice_param_view(list[0]).middle,
                    nice_param_view(list[0]).top,
                )
            } else {
                plain(render_key(k))
            }
        },
    }
}

/// The key cap of a parameter: that of the key it holds, or the literal.
pub open spec fn nice_param_view(p: ParamTree) -> PrintKeyView
    decreases p,
{
    match p {
        ParamTree::Literal(text) => plain(text),
        ParamTree::Key(k) => nice_key_view(k),
    }
}

/// The key cap of a text: that of the key expression it holds, or the text
/// itself where it holds none.
pub open spec fn nice_code_view(code: Seq<char>) -> PrintKeyView {
    match crate::grammar::key_of(code) {
        Ok(k) => nice_key_view(k),
        Err(_) => plain(code),
    }
}

/// The key cap of a key code.
fn nice_keycode(code: &str) -> (cap: PrintKey)
    ensures
        cap@ == nice_keycode_view(code@),
{
    let chars = to_chars(code);
    let c = &chars;
    if chars_equal(c, "KC_UP") {
        PrintKey::new("↑")
    } else if chars_equal(c, "KC_DOWN") {
        PrintKey::new("↓")
    } else if chars_equal(c, "KC_LEFT") {
        PrintKey::new("←")
    } else if chars_equal(c, "KC_RGHT") || chars_equal(c, "KC_RIGHT") {
        PrintKey::new("→")
    } else if chars_equal(c, "KC_NO") || chars_equal(c, "XXXXXXX") {
        PrintKey::new("")
    } else if chars_equal(c, "KC_DOT") {
        PrintKey::mt(".", ">")
    } else if chars_equal(c, "KC_COMM") {
        PrintKey::mt(",", "<")
    } else if chars_equal(c, "KC_SLSH") {
        PrintKey::mt("/", "?")
    } else if chars_equal(c, "KC_BSLS") {
        PrintKey::mt("\\", "|")
    } else if chars_equal(c, "KC_ENT") {
        PrintKey::new("↵")
    } else if chars_equal(c, "KC_BSPC") {
        PrintKey::new("⌫")
    } else if chars_equal(c, "KC_SPC") {
        PrintKey::new("␣")
    } else if chars_equal(c, "KC_TAB") {
        PrintKey::new("⇥")
    } else if chars_equal(c, "KC_DEL") {
        PrintKey::new("⌦")
    } else if chars_equal(c, "KC_GRV") {
        PrintKey::mt("`", "~")
    } else if chars_equal(c, "KC_LBRC") {
        PrintKey::mt("[", "{")
    } else if chars_equal(c, "KC_RBRC") {
        PrintKey::mt("]", "}")
    } else if chars_equal(c, "KC_SCLN") {
        PrintKey::mt(";", ":")
    } else if chars_equal(c, "KC_EQL") {
        PrintKey::mt("=", "+")
    } else if chars_equal(c, "KC_MINS") {
        PrintKey::mt("-", "_")
    } else if chars_equal(c, "KC_CAPS") {
        PrintKey::new("⇪")
    } else if chars_equal(c, "KC_QUOT") || chars_equal(c, "KC_QUOTE") {
        PrintKey::mt("'", "\"")
    } else if chars_equal(c, "KC_LCTL") || chars_equal(c, "KC_RCTL") {
        PrintKey::new("⌃")
    } else if chars_equal(c, "KC_LSFT") || chars_equal(c, "KC_RSFT") {
        PrintKey::new("⇧")
    } else if chars_equal(c, "KC_LALT") || chars_equal(c, "KC_RALT") {
        PrintKey::new("⌥")
    } else if chars_equal(c, "KC_LGUI") || chars_equal(c, "KC_RGUI") {
        PrintKey::new("⌘")
    } else if chars_equal(c, "KC_1") {
        PrintKey::mt("1", "!")
    } else if chars_equal(c, "KC_2") {
        PrintKey::mt("2", "@")
    } else if chars_equal(c, "KC_3") {
        PrintKey::mt("3", "#")
    } else if chars_equal(c, "KC_4") {
        PrintKey::mt("4", "$")
    } else if chars_equal(c, "KC_5") {
        PrintKey::mt("5", "%")
    } else if chars_equal(c, "KC_6") {
        PrintKey::mt("6", "^")
    } else if chars_equal(c, "KC_7") {
        PrintKey::mt("7", "&")
    } else if chars_equal(c, "KC_8") {
        PrintKey::mt("8", "*")
    } else if chars_equal(c, "KC_9") {
        PrintKey::mt("9", "(")
    } else if chars_equal(c, "KC_0") {
        PrintKey::mt("0", ")")
    } else if chars_equal(c, "KC_TRNS") || chars_equal(c, "_______") {
        PrintKey::new("⇄")
    } else if chars_equal(c, "KC_PDOT") {
        PrintKey::mt(".", "⌦")
    } else if chars_equal(c, "KC_P1") {
        PrintKey::mt("1", "End")
    } else if chars_equal(c, "KC_P2") {
        PrintKey::mt("2", "↓")
    } else if chars_equal(c, "KC_P3") {
        PrintKey::mt("3", "PgDn")
    } else if chars_equal(c, "KC_P4") {
        PrintKey::mt("4", "←")
    } else if chars_equal(c, "KC_P5") {
        PrintKey::mt("5", "Clear")
    } else if chars_equal(c, "KC_P6") {
        PrintKey::mt("6", "→")
    } else if chars_equal(c, "KC_P7") {
        PrintKey::mt("7", "Home")
    } else if chars_equal(c, "KC_P8") {
        PrintKey::mt("8", "↑")
    } else if chars_equal(c, "KC_P9") {
        PrintKey::mt("9", "PgUp")
    } else if chars_equal(c, "KC_P0") {
        PrintKey::mt("0", "Ins")
    } else if chars_equal(c, "KC_PPLS") {
        PrintKey::new("+")
    } else if chars_equal(c, "KC_PMNS") {
        PrintKey::new("-")
    } else if chars_equal(c, "KC_PAST") {
        PrintKey::new("*")
    } else if chars_equal(c, "KC_PSLS") {
        PrintKey::new("/")
    } else if chars_equal(c, "KC_PEQL") {
        PrintKey::new("=")
    } else if chars_equal(c, "KC_EXLM") {
        PrintKey::new("!")
    } else if chars_equal(c, "KC_AT") {
        PrintKey::new("@")
    } else if chars_equal(c, "KC_HASH") {
        PrintKey::new("#")
    } else if chars_equal(c, "KC_DLR") {
        PrintKey::new("$")
    } else if chars_equal(c, "KC_PERC") {
        PrintKey::new("%")
    } else if chars_equal(c, "KC_CIRC") {
        PrintKey::new("^")
    } else if chars_equal(c, "KC_AMPR") {
        PrintKey::new("&")
    } else if chars_equal(c, "KC_ASTR") {
        PrintKey::new("*")
    } else if chars_equal(c, "KC_LPRN") {
        PrintKey::new("(")
    } else if chars_equal(c, "KC_RPRN") {
        PrintKey::new(")")
    } else if chars_equal(c, "KC_TILD") {
        PrintKey::new("~")
    } else if chars_equal(c, "KC_LCBR") {
        PrintKey::new("{")
    } else if chars_equal(c, "KC_RCBR") {
        PrintKey::new("}")
    } else if chars_equal(c, "KC_COLN") {
        PrintKey::new(":")
    } else if chars_equal(c, "KC_PLUS") {
        PrintKey::new("+")
    } else if chars_equal(c, "KC_UNDS") {
        PrintKey::new("_")
    } else if chars_equal(c, "KC_PIPE") {
        PrintKey::new("|")
    } else if chars_equal(c, "KC_LT") {
        PrintKey::new("<")
    } else if chars_equal(c, "KC_GT") {
        PrintKey::new(">")
    } else if chars_equal(c, "KC_QUES") {
        PrintKey::new("?")
    } else if chars_equal(c, "KC_DQUO") {
        PrintKey::new("\"")
    } else if chars_start_with(c, "KC_") {
        proof {
            reveal_strlit("KC_");
        }
        let rest = from_chars(c, 3, chars.len());
        PrintKey::new(rest.as_str())
    } else {
        PrintKey::new(code)
    }
}

/// What a key shows at its bottom while the modifier named by a mod-tap
/// function is held.
fn hold_glyph_of(name: &Vec<char>) -> (glyph: Option<&'static str>)
    ensures
        match glyph {
            Some(g) => hold_glyph(name@) == Some(g@),
            None => hold_glyph(name@) is None,
        },
{
    if chars_equal(name, "LSFT_T") || chars_equal(name, "RSFT_T") || chars_equal(name, "SFT_T") {
        Some("⇧")
    } else if chars_equal(name, "LCTL_T") || chars_equal(name, "RCTL_T") || chars_equal(name, "CTL_T") {
        Some("⌃")
    } else if chars_equal(name, "LALT_T") || chars_equal(name, "RALT_T") || chars_equal(name, "ALT_T") {
        Some("⌥")
    } else if chars_equal(name, "LGUI_T") || chars_equal(name, "RGUI_T") || chars_equal(name, "GUI_T") {
        Some("⌘")
    } else if chars_equal(name, "MEH_T") {
        Some("MEH")
    } else if chars_equal(name, "HYPR") || chars_equal(name, "ALL_T") {
        Some("HYPR")
    } else {
        None
    }
}

/// What a modifier function puts before the key it modifies.
fn chord_glyph_of(name: &Vec<char>) -> (glyph: Option<&'static str>)
    ensures
        match glyph {
            Some(g) => chord_glyph(name@) == Some(g@),
            None => chord_glyph(name@) is None,
        },
{
    if chars_equal(name, "S") || chars_equal(name, "LSFT") {
        Some("⇧")
    } else if chars_equal(name, "C") || chars_equal(name, "LCTL") {
        Some("⌃")
    } else if chars_equal(name, "A") || chars_equal(name, "LALT") {
        Some("⌥")
    } else if chars_equal(name, "G") || chars_equal(name, "LGUI") {
        Some("⌘")
    } else {
        None
    }
}

/// The canonical text of a parameter.
fn param_text(p: &Param) -> (text: String)
    ensures
        text@ == render_param(p@),
{
    match p {
        Param::Literal(text) => text.clone(),
        Param::Key(k) => format_pair(k, &PrintOptions::new()),
    }
}

/// The key cap of a parameter.
fn nice_param(p: &Param) -> (cap: PrintKey)
    ensures
        cap@ == nice_param_view(p@),
    decreases p,
{
    match p {
        Param::Literal(text) => PrintKey::new(text.as_str()),
        Param::Key(k) => nice_key(k),
    }
}

/// The key cap of a key expression.
pub fn nice_key(k: &Key) -> (cap: PrintKey)
    ensures
        cap@ == nice_key_view(k@),
    decreases k,
{
    match k {
        Key::KeyCode(name) => nice_keycode(name.as_str()),
        Key::FunctionCall(name, list) => {
            proof {
                crate::ast::lemma_param_trees(list@);
                assert(decreases_to!(*k => k->FunctionCall_1));
                if list.len() > 0 {
                    assert(decreases_to!(list@ => list@[0]));
                }
                if list.len() > 1 {
                    assert(decreases_to!(list@ => list@[1]));
                }
            }
            let chars = to_chars(name.as_str());
            if chars_equal(&chars, "LT") && list.len() == 2 {
                let tap = nice_param(&list[1]);
                let mut bottom = String::from_str("L-");
                let layer = param_text(&list[0]);
                bottom.append(layer.as_str());
                return PrintKey { top: tap.top, middle: tap.middle, bottom };
            }
            if list.len() == 1 {
                if let Some(glyph) = hold_glyph_of(&chars) {
                    let tap = nice_param(&list[0]);
                    return PrintKey {
                        top: tap.top,
                        middle: tap.middle,
                        bottom: String::from_str(glyph),
                    };
                }
                if let Some(glyph) = chord_glyph_of(&chars) {
                    let tap = nice_param(&list[0]);
                    let mut middle = String::from_str(glyph);
                    middle.append(tap.middle.as_str());
                    return PrintKey { top: tap.top, middle, bottom: String::new() };
                }
            }
            let raw = format_pair(k, &PrintOptions::new());
            PrintKey::new(raw.as_str())
        },
    }
}

/// The key cap of the text of a grid cell.
pub fn nice_code(code: &str) -> (cap: PrintKey)
    ensures
        cap@ == nice_code_view(code@),
{
    match MyParser::parse_key(code) {
        Ok(k) => nice_key(&k),
        Err(_) => PrintKey::new(code),
    }
}

} // verus!
