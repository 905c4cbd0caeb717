//! The diagram of a keymap: where each key cap stands on the sheet, and the
//! sheet as an SVG document.
//!
//! Every length is counted in `usize` and stops at the largest `usize`
//! where it would pass it.

use crate::key::{nice_code, nice_code_view, PrintKey, PrintKeyView};
use crate::keymap::{GridView, Keymap, LayerView};
use crate::options::PrintOptions;
use crate::text::{capped, decimal, number_text, plus, times};
use svg::node::element::{Group, Rectangle, Text, SVG};
use vstd::prelude::*;
use vstd::string::StringExecFns;

verus! {

/// The width of a key cap and the room around it.
pub const KEY_WIDTH: usize = 100;

/// The height of a key cap and the room around it.
pub const KEY_HEIGHT: usize = 70;

/// The margin around the keys of a layer.
pub const PADDING: usize = 50;

/// A key cap on the sheet.
#[derive(Debug, PartialEq, Eq)]
pub struct KeyBox {
    /// Left edge.
    pub x: usize,
    /// Upper edge.
    pub y: usize,
    /// What the cap shows.
    pub cap: PrintKey,
}

/// The part of the sheet that shows one layer.
#[derive(Debug, PartialEq, Eq)]
pub struct LayerSheet {
    /// The heading of the layer.
    pub title: String,
    /// Where the heading stands.
    pub title_y: usize,
    /// The key caps, row by row.
    pub boxes: Vec<KeyBox>,
}

/// The sheet: its size and its layers from top to bottom.
#[derive(Debug, PartialEq, Eq)]
pub struct Sheet {
    pub width: usize,
    pub height: usize,
    pub layers: Vec<LayerSheet>,
}

/// A key cap on the sheet, as a mathematical value.
pub ghost struct KeyBoxView {
    pub x: int,
    pub y: int,
    pub cap: PrintKeyView,
}

/// The part of the sheet that shows one layer, as a mathematical value.
pub ghost struct LayerSheetView {
    pub title: Seq<char>,
    pub title_y: int,
    pub boxes: Seq<KeyBoxView>,
}

/// The sheet as a mathematical value.
pub ghost struct SheetView {
    pub width: int,
    pub height: int,
    pub layers: Seq<LayerSheetView>,
}

impl View for KeyBox {
    type V = KeyBoxView;

    open spec fn view(&self) -> KeyBoxView {
        KeyBoxView { x: self.x as int, y: self.y as int, cap: self.cap@ }
    }
}

/// The key caps of a list, each as a mathematical value.
pub open spec fn box_views(boxes: Seq<KeyBox>) -> Seq<KeyBoxView> {
    Seq::new(boxes.len(), |i: int| boxes[i]@)
}

impl View for LayerSheet {
    type V = LayerSheetView;

    open spec fn view(&self) -> LayerSheetView {
        LayerSheetView {
            title: self.title@,
            title_y: self.title_y as int,
            boxes: box_views(self.boxes@),
        }
    }
}

impl View for Sheet {
    type V = SheetView;

    open spec fn view(&self) -> SheetView {
        SheetView {
            width: self.width as int,
            height: self.height as int,
            layers: Seq::new(self.layers.len() as nat, |i: int| self.layers[i]@),
        }
    }
}

/// The number of cells in the first row of a grid; 0 where it has no row.
pub open spec fn first_row_len(grid: GridView) -> int {
    if grid.len() > 0 {
        grid[0].len() as int
    } else {
        0
    }
}

/// The number of cells in the first row of the first layer.
pub open spec fn first_layer_columns(layers: Seq<LayerView>) -> int {
    if layers.len() > 0 {
        first_row_len(layers[0].keys)
    } else {
        0
    }
}

/// The number of rows of the first layer.
pub open spec fn first_layer_rows(layers: Seq<LayerView>) -> int {
    if layers.len() > 0 {
        layers[0].keys.len() as int
    } else {
        0
    }
}

/// The width of the gutter between the two halves.
pub open spec fn gutter_width(ops: PrintOptions) -> int {
    capped(ops.split_space * 10)
}

/// The width of the sheet: the columns of the first layer, the gutter and
/// the margins.
pub open spec fn sheet_width(layers: Seq<LayerView>, ops: PrintOptions) -> int {
    capped(capped(capped(first_layer_columns(layers) * 100) + 100) + gutter_width(ops))
}

/// The height that each layer takes on the sheet: the rows of the first
/// layer and the margins.
pub open spec fn layer_height(layers: Seq<LayerView>) -> int {
    capped(capped(first_layer_rows(layers) * 70) + 100)
}

/// The height of the sheet.
pub open spec fn sheet_height(layers: Seq<LayerView>) -> int {
    capped(layer_height(layers) * layers.len())
}

/// The left edge of the key cap in column `col` of a layer whose right half
/// begins at column `centre`.
pub open spec fn key_x(col: int, centre: int, gutter: int) -> int {
    capped(
        capped(capped(col * 100) + 50) + if col >= centre {
            gutter
        } else {
            0
        },
    )
}

/// The upper edge of the key caps in row `row` of layer `layer`.
pub open spec fn key_y(layer: int, row: int, height: int) -> int {
    capped(capped(capped(layer * height) + capped(row * 70)) + 50)
}

/// Where the heading of layer `layer` stands.
pub open spec fn title_y(layer: int, height: int) -> int {
    capped(capped(layer * height) + 25)
}

/// The heading of a layer: `Layer` and its label where the label is one
/// character, the label alone where it is not.
pub open spec fn title_of(num: Seq<char>) -> Seq<char> {
    if num.len() == 1 {
        "Layer "@ + num
    } else {
        num
    }
}

/// The key caps of the first `upto` cells of a row; a gap has none.
pub open spec fn row_boxes(
    row: Seq<Option<Seq<char>>>,
    y: int,
    centre: int,
    gutter: int,
    upto: int,
) -> Seq<KeyBoxView>
    decreases upto,
{
    if upto <= 0 {
        Seq::empty()
    } else {
        match row[upto - 1] {
            Some(code) => row_boxes(row, y, centre, gutter, upto - 1).push(
                KeyBoxView { x: key_x(upto - 1, centre, gutter), y, cap: nice_code_view(code) },
            ),
            None => row_boxes(row, y, centre, gutter, upto - 1),
        }
    }
}

/// The key caps of the first `upto` rows of the grid of layer `layer`.
pub open spec fn grid_boxes(grid: GridView, layer: int, height: int, gutter: int, upto: int) -> Seq<
    KeyBoxView,
>
    decreases upto,
{
    if upto <= 0 {
        Seq::empty()
    } else {
        grid_boxes(grid, layer, height, gutter, upto - 1) + row_boxes(
            grid[upto - 1],
            key_y(layer, upto - 1, height),
            first_row_len(grid) / 2,
            gutter,
            grid[upto - 1].len() as int,
        )
    }
}

/// The part of the sheet that shows layer `layer`.
pub open spec fn layer_sheet(layers: Seq<LayerView>, layer: int, ops: PrintOptions) -> LayerSheetView {
    LayerSheetView {
        title: title_of(layers[layer].num),
        title_y: title_y(layer, layer_height(layers)),
        boxes: grid_boxes(
            layers[layer].keys,
            layer,
            layer_height(layers),
            gutter_width(ops),
            layers[layer].keys.len() as int,
        ),
    }
}

/// The sheet of a keymap.
pub open spec fn sheet_of(layers: Seq<LayerView>, ops: PrintOptions) -> SheetView {
    SheetView {
        width: sheet_width(layers, ops),
        height: sheet_height(layers),
        layers: Seq::new(layers.len(), |l: int| layer_sheet(layers, l, ops)),
    }
}

/// The heading of a layer.
fn title(num: &String) -> (text: String)
    ensures
        text@ == title_of(num@),
{
    if num.as_str().unicode_len() == 1 {
        let mut text = String::from_str("Layer ");
        text.append(num.as_str());
        text
    } else {
        num.clone()
    }
}

/// Appends the key caps of a row.
fn push_row_boxes(
    boxes: &mut Vec<KeyBox>,
    row: &Vec<Option<String>>,
    y: usize,
    centre: usize,
    gutter: usize,
)
    ensures
        box_views(final(boxes)@) == box_views(old(boxes)@) + row_boxes(
            row.deep_view(),
            y as int,
            centre as int,
            gutter as int,
            row.len() as int,
        ),
{
    let ghost start = box_views(old(boxes)@);
    let ghost cells = row.deep_view();
    assert(box_views(boxes@) =~= start + row_boxes(cells, y as int, centre as int, gutter as int, 0));
    let mut col: usize = 0;
    while col < row.len()
        invariant
            col <= row.len(),
            cells == row.deep_view(),
            box_views(boxes@) == start + row_boxes(
                cells,
                y as int,
                centre as int,
                gutter as int,
                col as int,
            ),
        decreases row.len() - col,
    {
        let ghost before = boxes@;
        match &row[col] {
            Some(code) => {
                assert(cells[col as int] == Some(code@));
                let shift = if col >= centre {
                    gutter
                } else {
                    0
                };
                let x = plus(plus(times(col, 100), 50), shift);
                let key_box = KeyBox { x, y, cap: nice_code(code.as_str()) };
                boxes.push(key_box);
                assert(box_views(boxes@) =~= box_views(before).push(key_box@));
                assert(box_views(boxes@) =~= start + row_boxes(
                    cells,
                    y as int,
                    centre as int,
                    gutter as int,
                    col + 1,
                ));
            },
            None => {
                assert(cells[col as int] is None);
            },
        }
        col += 1;
    }
}

/// Lays out a keymap: the size of the sheet and, for every key, where its
/// cap stands and what it shows.
pub fn layout(keymap: &Keymap, ops: &PrintOptions) -> (sheet: Sheet)
    ensures
        sheet@ == sheet_of(keymap@, *ops),
{
    let ghost layers = keymap@;
    let count = keymap.layers.len();
    let columns = if count > 0 && keymap.layers[0].keys.len() > 0 {
        keymap.layers[0].keys[0].len()
    } else {
        0
    };
    let rows = if count > 0 {
        keymap.layers[0].keys.len()
    } else {
        0
    };
    proof {
        if count > 0 {
            assert(layers[0].keys == keymap.layers[0].keys.deep_view());
            if keymap.layers[0].keys.len() > 0 {
                assert(layers[0].keys[0].len() == keymap.layers[0].keys[0].len());
            }
        }
    }
    let gutter = times(ops.split_space, 10);
    let width = plus(plus(times(columns, 100), 100), gutter);
    let height = plus(times(rows, 70), 100);
    let mut sheets: Vec<LayerSheet> = Vec::new();
    let mut l: usize = 0;
    while l < count
        invariant
            l <= count,
            count == keymap.layers.len(),
            layers == keymap@,
            gutter == gutter_width(*ops),
            height == layer_height(layers),
            sheets.len() == l,
            forall|i: int| 0 <= i < l ==> (#[trigger] sheets[i])@ == layer_sheet(layers, i, *ops),
        decreases count - l,
    {
        let layer = &keymap.layers[l];
        let grid = &layer.keys;
        let ghost cells = grid.deep_view();
        assert(layers[l as int] == layer@);
        let centre = if grid.len() > 0 {
            grid[0].len() / 2
        } else {
            0
        };
        proof {
            if grid.len() > 0 {
                assert(cells[0].len() == grid[0].len());
            }
        }
        let top = times(l, height);
        let mut boxes: Vec<KeyBox> = Vec::new();
        assert(box_views(boxes@) =~= grid_boxes(cells, l as int, height as int, gutter as int, 0));
        let mut r: usize = 0;
        while r < grid.len()
            invariant
                r <= grid.len(),
                cells == grid.deep_view(),
                centre == first_row_len(cells) / 2,
                top == capped(l * height),
                box_views(boxes@) == grid_boxes(
                    cells,
                    l as int,
                    height as int,
                    gutter as int,
                    r as int,
                ),
            decreases grid.len() - r,
        {
            let y = plus(plus(top, times(r, 70)), 50);
            assert(cells[r as int] == grid[r as int].deep_view());
            push_row_boxes(&mut boxes, &grid[r], y, centre, gutter);
            r += 1;
        }
        let sheet = LayerSheet { title: title(&layer.num), title_y: plus(top, 25), boxes };
        assert(sheet@ == layer_sheet(layers, l as int, *ops));
        sheets.push(sheet);
        l += 1;
    }
    let sheet = Sheet { width, height: times(height, count), layers: sheets };
    assert(sheet@.layers =~= sheet_of(layers, *ops).layers);
    sheet
}

/// `svg::node::element::SVG`: the root element of a document.
#[verifier::external_type_specification]
#[verifier::external_body]
pub struct ExDocument(SVG);

/// `svg::node::element::Group`: a `g` element.
#[verifier::external_type_specification]
#[verifier::external_body]
pub struct ExGroup(Group);

/// `svg::node::element::Rectangle`: a `rect` element.
#[verifier::external_type_specification]
#[verifier::external_body]
pub struct ExRectangle(Rectangle);

/// `svg::node::element::Text`: a `text` element.
#[verifier::external_type_specification]
#[verifier::external_body]
pub struct ExText(Text);

/// The attributes that a document holds: the value assigned to each name.
pub uninterp spec fn document_attributes(document: SVG) -> Map<Seq<char>, Seq<char>>;

/// What the children of a document print as, in the order in which they
/// were added.
pub uninterp spec fn document_children(document: SVG) -> Seq<Seq<char>>;

/// The attributes that a group holds.
pub uninterp spec fn group_attributes(group: Group) -> Map<Seq<char>, Seq<char>>;

/// What the children of a group print as, in order.
pub uninterp spec fn group_children(group: Group) -> Seq<Seq<char>>;

/// For each child of a group, in order, whether it is a bare node: a text
/// node, which an element that prints in the plain form sets inline.
pub uninterp spec fn group_bare(group: Group) -> Seq<bool>;

/// The attributes that a rectangle holds.
pub uninterp spec fn rectangle_attributes(rectangle: Rectangle) -> Map<Seq<char>, Seq<char>>;

/// What the children of a rectangle print as, in order.
pub uninterp spec fn rectangle_children(rectangle: Rectangle) -> Seq<Seq<char>>;

/// For each child of a rectangle, in order, whether it is a bare node.
pub uninterp spec fn rectangle_bare(rectangle: Rectangle) -> Seq<bool>;

/// The attributes that a text element holds.
pub uninterp spec fn text_attributes(text: Text) -> Map<Seq<char>, Seq<char>>;

/// What the children of a text element print as, in order.
pub uninterp spec fn text_children(text: Text) -> Seq<Seq<char>>;

/// What the `Display` of `svg::node::element::Element` prints for an
/// element named `tag` that holds `attributes` and whose children print as
/// `children`, where `inline` says of each child whether it is set inline,
/// without a line break before it, and not on lines of its own. A child is
/// set inline where it is a bare node and the element prints in the plain
/// form, as groups and rectangles do; documents and text elements print in
/// the alternate form and set no child inline.
pub uninterp spec fn element_markup(
    tag: Seq<char>,
    attributes: Map<Seq<char>, Seq<char>>,
    children: Seq<Seq<char>>,
    inline: Seq<bool>,
) -> Seq<char>;

/// No attribute at all.
pub open spec fn no_attributes() -> Map<Seq<char>, Seq<char>> {
    Map::empty()
}

/// No child at all.
pub open spec fn no_children() -> Seq<Seq<char>> {
    Seq::empty()
}

/// Of `n` children none is set inline.
pub open spec fn apart(n: nat) -> Seq<bool> {
    Seq::new(n, |i: int| false)
}

/// What a character of a text node prints as: `&`, `<` and `>` as their
/// entities, any other as itself.
pub open spec fn escaped_char(c: char) -> Seq<char> {
    if c == '&' {
        "&amp;"@
    } else if c == '<' {
        "&lt;"@
    } else if c == '>' {
        "&gt;"@
    } else {
        seq![c]
    }
}

/// What a text node with this content prints as.
pub open spec fn escaped(content: Seq<char>) -> Seq<char>
    decreases content.len(),
{
    if content.len() == 0 {
        Seq::empty()
    } else {
        escaped(content.drop_last()) + escaped_char(content.last())
    }
}

/// `SVG::new`: a document without children whose one attribute is the
/// `xmlns` of SVG.
#[verifier::external_body]
fn new_document() -> (document: SVG)
    ensures
        document_attributes(document) == no_attributes().insert(
            "xmlns"@,
            "http://www.w3.org/2000/svg"@,
        ),
        document_children(document) == no_children(),
{
    SVG::new()
}

/// `SVG::set`: the document with `value` assigned to the attribute `name`,
/// in place of what was assigned to it before. The children stay.
#[verifier::external_body]
fn document_set(document: SVG, name: &str, value: &str) -> (out: SVG)
    ensures
        document_attributes(out) == document_attributes(document).insert(name@, value@),
        document_children(out) == document_children(document),
{
    document.set(name, value)
}

/// `SVG::add`: the document with the group appended as its last child. The
/// attributes stay. A group prints in the plain form: it sets those of its
/// children inline that are bare.
#[verifier::external_body]
fn document_add(document: SVG, group: Group) -> (out: SVG)
    ensures
        document_attributes(out) == document_attributes(document),
        document_children(out) == document_children(document).push(
            element_markup(
                "g"@,
                group_attributes(group),
                group_children(group),
                group_bare(group),
            ),
        ),
{
    document.add(group)
}

/// `svg::write` into a buffer: the text that the document prints as. A
/// document prints in the alternate form: it sets no child inline.
#[verifier::external_body]
fn document_text(document: &SVG) -> (text: String)
    ensures
        text@ == element_markup(
            "svg"@,
            document_attributes(*document),
            document_children(*document),
            apart(document_children(*document).len()),
        ),
{
    let mut buffer = Vec::new();
    svg::write(&mut buffer, document).unwrap();
    String::from_utf8(buffer).unwrap()
}

/// `Group::new`: a group without attributes and without children.
#[verifier::external_body]
fn new_group() -> (group: Group)
    ensures
        group_attributes(group) == no_attributes(),
        group_children(group) == no_children(),
        group_bare(group) == apart(0),
{
    Group::new()
}

/// `Group::add`: the group with the text element appended as its last
/// child, which is an element and so not bare. The attributes stay. A text
/// element prints in the alternate form: it sets no child inline.
#[verifier::external_body]
fn group_add_text(group: Group, text: Text) -> (out: Group)
    ensures
        group_attributes(out) == group_attributes(group),
        group_children(out) == group_children(group).push(
            element_markup(
                "text"@,
                text_attributes(text),
                text_children(text),
                apart(text_children(text).len()),
            ),
        ),
        group_bare(out) == group_bare(group).push(false),
{
    group.add(text)
}

/// `Group::add`: the group with the rectangle appended as its last child,
/// which is an element and so not bare. The attributes stay. A rectangle
/// prints in the plain form: it sets those of its children inline that are
/// bare.
#[verifier::external_body]
fn group_add_rectangle(group: Group, rectangle: Rectangle) -> (out: Group)
    ensures
        group_attributes(out) == group_attributes(group),
        group_children(out) == group_children(group).push(
            element_markup(
                "rect"@,
                rectangle_attributes(rectangle),
                rectangle_children(rectangle),
                rectangle_bare(rectangle),
            ),
        ),
        group_bare(out) == group_bare(group).push(false),
{
    group.add(rectangle)
}

/// `Rectangle::new`: a rectangle without attributes and without children.
#[verifier::external_body]
fn new_rectangle() -> (rectangle: Rectangle)
    ensures
        rectangle_attributes(rectangle) == no_attributes(),
        rectangle_children(rectangle) == no_children(),
        rectangle_bare(rectangle) == apart(0),
{
    Rectangle::new()
}

/// `Rectangle::set`: the rectangle with `value` assigned to the attribute
/// `name`, in place of what was assigned to it before. The children stay.
#[verifier::external_body]
fn rectangle_set(rectangle: Rectangle, name: &str, value: &str) -> (out: Rectangle)
    ensures
        rectangle_attributes(out) == rectangle_attributes(rectangle).insert(name@, value@),
        rectangle_children(out) == rectangle_children(rectangle),
        rectangle_bare(out) == rectangle_bare(rectangle),
{
    rectangle.set(name, value)
}

/// `Text::new`: a text element without attributes whose one child is a text
/// node that holds `content`.
#[verifier::external_body]
fn new_text(content: &str) -> (text: Text)
    ensures
        text_attributes(text) == no_attributes(),
        text_children(text) == seq![escaped(content@)],
{
    Text::new(content)
}

/// `Text::set`: the text element with `value` assigned to the attribute
/// `name`, in place of what was assigned to it before. The children stay.
#[verifier::external_body]
fn text_set(text: Text, name: &str, value: &str) -> (out: Text)
    ensures
        text_attributes(out) == text_attributes(text).insert(name@, value@),
        text_children(out) == text_children(text),
{
    text.set(name, value)
}

/// The attributes of a white text at `x`, `y`.
pub open spec fn label_attributes(x: int, y: int, anchor: Seq<char>) -> Map<Seq<char>, Seq<char>> {
    no_attributes().insert("x"@, decimal(x as nat)).insert(
        "y"@,
        decimal(y as nat),
    ).insert("fill"@, "white"@).insert("stroke"@, "none"@).insert("text-anchor"@, anchor).insert(
        "dominant-baseline"@,
        "middle"@,
    )
}

/// A white text of which the centre stands at `x`, `y`: a text element
/// around one text node.
pub open spec fn label_markup(content: Seq<char>, x: int, y: int) -> Seq<char> {
    element_markup("text"@, label_attributes(x, y, "middle"@), seq![escaped(content)], apart(1))
}

/// The heading of a layer: a larger text at the left margin.
pub open spec fn heading_markup(title: Seq<char>, y: int) -> Seq<char> {
    element_markup(
        "text"@,
        label_attributes(30, y, "left"@).insert("font-size"@, "20"@),
        seq![escaped(title)],
        apart(1),
    )
}

/// The attributes of the outline of a key cap: a dark rounded rectangle
/// that leaves 7 units of room to the next.
pub open spec fn outline_attributes(x: int, y: int) -> Map<Seq<char>, Seq<char>> {
    no_attributes().insert("x"@, decimal(x as nat)).insert(
        "y"@,
        decimal(y as nat),
    ).insert("width"@, decimal((KEY_WIDTH - 7) as nat)).insert(
        "height"@,
        decimal((KEY_HEIGHT - 7) as nat),
    ).insert("rx"@, "10"@).insert("ry"@, "10"@).insert("fill"@, "#2c2c2c"@).insert(
        "stroke"@,
        "#555555"@,
    ).insert("stroke-width"@, "2"@)
}

/// What a key cap is drawn as: its outline, and what it shows in its
/// middle, near its top and near its bottom.
pub open spec fn box_markup(key_box: KeyBoxView) -> Seq<Seq<char>> {
    let middle = capped(key_box.x + KEY_WIDTH / 2);
    seq![
        element_markup(
            "rect"@,
            outline_attributes(key_box.x, key_box.y),
            no_children(),
            apart(0),
        ),
        label_markup(key_box.cap.middle, middle, capped(key_box.y + KEY_HEIGHT / 2)),
        label_markup(key_box.cap.top, middle, capped(key_box.y + 14)),
        label_markup(key_box.cap.bottom, middle, capped(key_box.y + (KEY_HEIGHT - 16))),
    ]
}

/// What the first `upto` key caps are drawn as.
pub open spec fn boxes_markup(boxes: Seq<KeyBoxView>, upto: int) -> Seq<Seq<char>>
    decreases upto,
{
    if upto <= 0 {
        Seq::empty()
    } else {
        boxes_markup(boxes, upto - 1) + box_markup(boxes[upto - 1])
    }
}

/// What a layer holds: its heading and its key caps.
pub open spec fn layer_children(layer: LayerSheetView) -> Seq<Seq<char>> {
    seq![heading_markup(layer.title, layer.title_y)] + boxes_markup(
        layer.boxes,
        layer.boxes.len() as int,
    )
}

/// What a layer is drawn as: a group of its heading and its key caps, each
/// of them an element on lines of its own.
pub open spec fn layer_markup(layer: LayerSheetView) -> Seq<char> {
    element_markup(
        "g"@,
        no_attributes(),
        layer_children(layer),
        apart(layer_children(layer).len()),
    )
}

/// The attributes of the document of a sheet.
pub open spec fn sheet_attributes(width: int, height: int) -> Map<Seq<char>, Seq<char>> {
    no_attributes().insert("xmlns"@, "http://www.w3.org/2000/svg"@).insert(
        "viewBox"@,
        "0 0 "@ + decimal(width as nat) + " "@ + decimal(height as nat),
    ).insert("stroke"@, "white"@).insert("font-family"@, "Arial"@)
}

/// What a sheet is drawn as: a document of the size of the sheet that holds
/// one group for each layer.
pub open spec fn sheet_markup(sheet: SheetView) -> Seq<char> {
    element_markup(
        "svg"@,
        sheet_attributes(sheet.width, sheet.height),
        Seq::new(sheet.layers.len(), |l: int| layer_markup(sheet.layers[l])),
        apart(sheet.layers.len()),
    )
}

/// A white text at `x`, `y`.
fn label(content: &str, x: usize, y: usize, anchor: &str) -> (text: Text)
    ensures
        text_attributes(text) == label_attributes(x as int, y as int, anchor@),
        text_children(text) == seq![escaped(content@)],
{
    let mut text = new_text(content);
    text = text_set(text, "x", number_text(x).as_str());
    text = text_set(text, "y", number_text(y).as_str());
    text = text_set(text, "fill", "white");
    text = text_set(text, "stroke", "none");
    text = text_set(text, "text-anchor", anchor);
    text = text_set(text, "dominant-baseline", "middle");
    text
}

/// The outline of a key cap.
fn outline(key_box: &KeyBox) -> (rectangle: Rectangle)
    ensures
        rectangle_attributes(rectangle) == outline_attributes(key_box.x as int, key_box.y as int),
        rectangle_children(rectangle) == no_children(),
        rectangle_bare(rectangle) == apart(0),
{
    let mut rectangle = new_rectangle();
    rectangle = rectangle_set(rectangle, "x", number_text(key_box.x).as_str());
    rectangle = rectangle_set(rectangle, "y", number_text(key_box.y).as_str());
    rectangle = rectangle_set(rectangle, "width", number_text(KEY_WIDTH - 7).as_str());
    rectangle = rectangle_set(rectangle, "height", number_text(KEY_HEIGHT - 7).as_str());
    rectangle = rectangle_set(rectangle, "rx", "10");
    rectangle = rectangle_set(rectangle, "ry", "10");
    rectangle = rectangle_set(rectangle, "fill", "#2c2c2c");
    rectangle = rectangle_set(rectangle, "stroke", "#555555");
    rectangle = rectangle_set(rectangle, "stroke-width", "2");
    rectangle
}

/// The group of one layer: its heading and, for each key cap, the outline
/// and what it shows in its middle, near its top and near its bottom.
fn draw_layer(sheet: &LayerSheet) -> (group: Group)
    ensures
        element_markup(
            "g"@,
            group_attributes(group),
            group_children(group),
            group_bare(group),
        ) == layer_markup(sheet@),
{
    let ghost boxes = box_views(sheet.boxes@);
    let mut group = new_group();
    let mut heading = label(sheet.title.as_str(), 30, sheet.title_y, "left");
    heading = text_set(heading, "font-size", "20");
    group = group_add_text(group, heading);
    let ghost first = seq![heading_markup(sheet.title@, sheet.title_y as int)];
    assert(group_children(group) =~= first + boxes_markup(boxes, 0));
    assert(group_bare(group) =~= apart(1));
    let mut i: usize = 0;
    while i < sheet.boxes.len()
        invariant
            i <= sheet.boxes.len(),
            boxes == box_views(sheet.boxes@),
            group_attributes(group) == no_attributes(),
            group_children(group) == first + boxes_markup(boxes, i as int),
            group_bare(group) == apart(group_children(group).len()),
        decreases sheet.boxes.len() - i,
    {
        let key_box = &sheet.boxes[i];
        let ghost before = group_children(group);
        let ghost flags = group_bare(group);
        assert(boxes[i as int] == key_box@);
        let middle = plus(key_box.x, KEY_WIDTH / 2);
        group = group_add_rectangle(group, outline(key_box));
        group = group_add_text(
            group,
            label(key_box.cap.middle.as_str(), middle, plus(key_box.y, KEY_HEIGHT / 2), "middle"),
        );
        group = group_add_text(
            group,
            label(key_box.cap.top.as_str(), middle, plus(key_box.y, 14), "middle"),
        );
        group = group_add_text(
            group,
            label(key_box.cap.bottom.as_str(), middle, plus(key_box.y, KEY_HEIGHT - 16), "middle"),
        );
        assert(group_children(group) =~= before + box_markup(key_box@));
        assert(group_children(group) =~= first + boxes_markup(boxes, i + 1));
        assert(group_bare(group) =~= flags.push(false).push(false).push(false).push(false));
        assert(group_bare(group) =~= apart(group_children(group).len()));
        i += 1;
    }
    group
}

/// Draws a sheet as an SVG document.
pub fn draw(sheet: &Sheet) -> (text: String)
    ensures
        text@ == sheet_markup(sheet@),
{
    let ghost layers = sheet@.layers;
    let mut view_box = String::from_str("0 0 ");
    view_box.append(number_text(sheet.width).as_str());
    view_box.append(" ");
    view_box.append(number_text(sheet.height).as_str());
    let mut document = new_document();
    document = document_set(document, "viewBox", view_box.as_str());
    document = document_set(document, "stroke", "white");
    document = document_set(document, "font-family", "Arial");
    let mut i: usize = 0;
    while i < sheet.layers.len()
        invariant
            i <= sheet.layers.len(),
            layers == sheet@.layers,
            document_attributes(document) == sheet_attributes(
                sheet.width as int,
                sheet.height as int,
            ),
            document_children(document) == Seq::new(i as nat, |l: int| layer_markup(layers[l])),
        decreases sheet.layers.len() - i,
    {
        let ghost before = document_children(document);
        assert(layers[i as int] == sheet.layers[i as int]@);
        document = document_add(document, draw_layer(&sheet.layers[i]));
        assert(document_children(document) =~= Seq::new(
            (i + 1) as nat,
            |l: int| layer_markup(layers[l]),
        ));
        i += 1;
    }
    document_text(&document)
}

/// Draws a keymap as an SVG document: every layer under its heading, every
/// key as a rounded rectangle with its glyphs, the two halves of a layer a
/// gutter apart.
pub fn create_svg(keymap: &Keymap, ops: &PrintOptions) -> (text: String)
    ensures
        text@ == sheet_markup(sheet_of(keymap@, *ops)),
{
    draw(&layout(keymap, ops))
}

} // verus!
