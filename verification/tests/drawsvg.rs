use qmk_keymap::drawsvg::{draw, layout, KeyBox, LayerSheet, Sheet};
use qmk_keymap::{
    create_svg, generate_svg, get_keymap, keymap_string, Keymap, KeymapError, Layer, MyError,
    MyParser, PrintKey, PrintOptions,
};
use svg::node::element::{Group, Rectangle, Text};
use svg::Document;

fn cell(text: &str) -> Option<String> {
    Some(text.to_string())
}

fn layer(num: &str, keys: Vec<Vec<Option<String>>>) -> Layer {
    Layer { num: num.to_string(), name: "L".to_string(), keys }
}

fn expected_label(content: &str, x: usize, y: usize) -> Text {
    Text::new(content)
        .set("x", x)
        .set("y", y)
        .set("fill", "white")
        .set("stroke", "none")
        .set("text-anchor", "middle")
        .set("dominant-baseline", "middle")
}

fn expected_key(group: Group, x: usize, y: usize, top: &str, middle: &str, bottom: &str) -> Group {
    let rect = Rectangle::new()
        .set("x", x)
        .set("y", y)
        .set("width", 93)
        .set("height", 63)
        .set("rx", 10)
        .set("ry", 10)
        .set("fill", "#2c2c2c")
        .set("stroke", "#555555")
        .set("stroke-width", 2);
    group
        .add(rect)
        .add(expected_label(middle, x + 50, y + 35))
        .add(expected_label(top, x + 50, y + 14))
        .add(expected_label(bottom, x + 50, y + 54))
}

fn expected_heading(content: &str, y: usize) -> Text {
    Text::new(content)
        .set("x", 30)
        .set("y", y)
        .set("text-anchor", "left")
        .set("fill", "white")
        .set("stroke", "none")
        .set("font-size", "20")
        .set("dominant-baseline", "middle")
}

#[test]
fn diagram_of_two_layers() {
    let keymap = Keymap {
        layers: vec![
            layer("0", vec![vec![cell("KC_A"), None, cell("LT(1,KC_1)"), cell("S(KC_2)")]]),
            layer("NAV", vec![vec![None, cell("KC_UP"), None, cell("MO(1)")]]),
        ],
    };
    let mut ops = PrintOptions::default();
    ops.split_space = 5;
    // one row of four columns: 4 * 100 + 2 * 50 + 5 * 10 wide, each layer 70 + 2 * 50 high
    let mut first = Group::new().add(expected_heading("Layer 0", 25));
    first = expected_key(first, 50, 50, "", "A", "");
    first = expected_key(first, 300, 50, "!", "1", "L-1");
    first = expected_key(first, 400, 50, "@", "⇧2", "");
    let mut second = Group::new().add(expected_heading("NAV", 195));
    second = expected_key(second, 150, 220, "", "↑", "");
    second = expected_key(second, 400, 220, "", "MO(1)", "");
    let document = Document::new()
        .set("viewBox", (0, 0, 550, 340))
        .set("stroke", "white")
        .set("font-family", "Arial")
        .add(first)
        .add(second);
    assert_eq!(create_svg(&keymap, &ops), document.to_string());
}

#[test]
fn layout_places_every_key() {
    let keymap = Keymap {
        layers: vec![
            layer("0", vec![vec![cell("KC_A"), cell("KC_B")], vec![None, cell("KC_C")]]),
            layer("1", vec![vec![cell("KC_D"), None], vec![cell("KC_E"), cell("KC_F")]]),
        ],
    };
    let mut ops = PrintOptions::default();
    ops.split_space = 3;
    let sheet = layout(&keymap, &ops);
    assert_eq!(sheet.width, 2 * 100 + 100 + 30);
    assert_eq!(sheet.height, 2 * (2 * 70 + 100));
    assert_eq!(sheet.layers.len(), 2);
    assert_eq!(sheet.layers[0].title, "Layer 0");
    assert_eq!(sheet.layers[0].title_y, 25);
    assert_eq!(sheet.layers[1].title_y, 240 + 25);
    let places = |l: usize| -> Vec<(usize, usize, String)> {
        sheet.layers[l].boxes.iter().map(|b| (b.x, b.y, b.cap.middle.clone())).collect()
    };
    assert_eq!(
        places(0),
        vec![
            (50, 50, "A".to_string()),
            (180, 50, "B".to_string()),
            (180, 120, "C".to_string())
        ]
    );
    assert_eq!(
        places(1),
        vec![
            (50, 290, "D".to_string()),
            (50, 360, "E".to_string()),
            (180, 360, "F".to_string())
        ]
    );
}

#[test]
fn empty_keymap_gives_empty_sheet() {
    let keymap = Keymap { layers: vec![] };
    let ops = PrintOptions::default();
    let sheet = layout(&keymap, &ops);
    assert_eq!((sheet.width, sheet.height), (150, 0));
    assert!(sheet.layers.is_empty());
    let document = Document::new()
        .set("viewBox", (0, 0, 150, 0))
        .set("stroke", "white")
        .set("font-family", "Arial");
    assert_eq!(create_svg(&keymap, &ops), document.to_string());
}

#[test]
fn lengths_stop_at_the_largest() {
    let keymap = Keymap { layers: vec![layer("0", vec![vec![cell("KC_A"), cell("KC_B")]])] };
    let mut ops = PrintOptions::default();
    ops.split_space = usize::MAX / 5;
    let sheet = layout(&keymap, &ops);
    assert_eq!(sheet.width, usize::MAX);
    assert_eq!(sheet.layers[0].boxes[0].x, 50);
    assert_eq!(sheet.layers[0].boxes[1].x, usize::MAX);
    assert!(create_svg(&keymap, &ops).contains("viewBox"));
}

#[test]
fn drawing_a_sheet_by_hand() {
    let cap = PrintKey { top: "<".to_string(), middle: "&".to_string(), bottom: "".to_string() };
    let sheet = Sheet {
        width: 10,
        height: 20,
        layers: vec![LayerSheet {
            title: "T".to_string(),
            title_y: 7,
            boxes: vec![KeyBox { x: 1, y: 2, cap }],
        }],
    };
    let mut group = Group::new().add(expected_heading("T", 7));
    group = expected_key(group, 1, 2, "<", "&", "");
    let document = Document::new()
        .set("viewBox", (0, 0, 10, 20))
        .set("stroke", "white")
        .set("font-family", "Arial")
        .add(group);
    assert_eq!(draw(&sheet), document.to_string());
}

#[test]
fn diagram_and_text_of_a_source() {
    let text = "[0] = L(KC_A, KC_B\nKC_SPC)";
    let out = generate_svg(text).unwrap();
    let ops = PrintOptions::default();
    let keymap = get_keymap(&MyParser::parse_program(text).unwrap(), &ops).unwrap();
    assert_eq!(out, vec![create_svg(&keymap, &ops), keymap_string(&keymap, &ops)]);
    assert_eq!(out[1], "[0] = L (\n KC_A,               KC_B ,\n       KC_SPC             \n),\n");
    assert!(out[0].starts_with("<svg"));
    match generate_svg("[0] = L(") {
        Err(MyError::ParseError(e)) => assert_eq!((e.line, e.col), (1, 9)),
        _ => panic!("the text was accepted"),
    }
    assert_eq!(
        generate_svg("[0] = L(KC_A), [1] = L(KC_B\nKC_C)"),
        Err(MyError::KeymapError(KeymapError::RowCountMismatch))
    );
}
