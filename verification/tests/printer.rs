use qmk_keymap::{get_keymap, keymap_string, Keymap, Layer, MyParser, PrintOptions};

fn cell(text: &str) -> Option<String> {
    Some(text.to_string())
}

fn layer(num: &str, name: &str, keys: Vec<Vec<Option<String>>>) -> Layer {
    Layer { num: num.to_string(), name: name.to_string(), keys }
}

#[test]
fn uneven_layers_print_aligned() {
    let example = r#"
            [0] = LAYOUT_universal( KC_A,KC_B,
            KC_Q
            ),
            [1] = LAYOUT_universal( KC_B,KC_B
            KC_1
            )

        "#;
    let ops = PrintOptions::default();
    let prog = MyParser::parse_program(example).unwrap();
    let keymap = get_keymap(&prog, &ops).unwrap();
    let expected = concat_lines(&[
        "[0] = LAYOUT_universal (",
        " KC_A,             KC_B ,",
        "       KC_Q             ",
        "),",
        "[1] = LAYOUT_universal (",
        " KC_B,             KC_B ,",
        "       KC_1             ",
        "),",
    ]);
    assert_eq!(keymap_string(&keymap, &ops), expected);
}

fn concat_lines(lines: &[&str]) -> String {
    let mut out = String::new();
    for line in lines {
        out.push_str(line);
        out.push('\n');
    }
    out
}

#[test]
fn last_key_has_no_trailing_comma() {
    let keymap = Keymap { layers: vec![layer("0", "L", vec![vec![cell("KC_A"), cell("KC_B")]])] };
    let mut ops = PrintOptions::default();
    ops.split_space = 0;
    assert_eq!(keymap_string(&keymap, &ops), "[0] = L (\n KC_A,KC_B \n),\n");
}

#[test]
fn gutter_of_five_blanks_after_left_half() {
    let keymap = Keymap {
        layers: vec![layer(
            "0",
            "L",
            vec![
                vec![cell("A"), cell("B"), cell("C"), cell("D")],
                vec![cell("E"), cell("F")],
                vec![cell("G"), cell("H"), cell("I"), cell("J"), cell("K"), cell("L")],
            ],
        )],
    };
    let mut ops = PrintOptions::default();
    ops.split_space = 5;
    let text = keymap_string(&keymap, &ops);
    let lines: Vec<&str> = text.lines().collect();
    assert_eq!(lines[1], " A, B,     C ,D ,");
    assert_eq!(lines[2], " E,     F ,");
    assert_eq!(lines[3], " G, H, I,     J ,K ,L ");
    ops.split_space = 0;
    let text = keymap_string(&keymap, &ops);
    let lines: Vec<&str> = text.lines().collect();
    assert_eq!(lines[1], " A, B,C ,D ,");
    assert_eq!(lines[2], " E,F ,");
    assert_eq!(lines[3], " G, H, I,J ,K ,L ");
}

#[test]
fn left_align_pads_left_half_on_the_right() {
    let keymap = Keymap {
        layers: vec![layer("1", "L", vec![vec![cell("AB"), cell("C")], vec![cell("D"), cell("EFG")]])],
    };
    let mut ops = PrintOptions::default();
    ops.split_space = 1;
    assert_eq!(keymap_string(&keymap, &ops), "[1] = L (\n AB, C   ,\n  D, EFG \n),\n");
    ops.left_align = true;
    assert_eq!(keymap_string(&keymap, &ops), "[1] = L (\nAB , C   ,\nD  , EFG \n),\n");
}

#[test]
fn widths_per_layer_or_shared() {
    let keymap = Keymap {
        layers: vec![
            layer("0", "L", vec![vec![cell("A"), cell("B")]]),
            layer("1", "L", vec![vec![cell("LONG"), cell("C")]]),
        ],
    };
    let mut ops = PrintOptions::default();
    ops.split_space = 2;
    ops.align_layers = true;
    assert_eq!(
        keymap_string(&keymap, &ops),
        "[0] = L (\n    A,  B \n),\n[1] = L (\n LONG,  C \n),\n"
    );
    ops.align_layers = false;
    assert_eq!(
        keymap_string(&keymap, &ops),
        "[0] = L (\n A,  B \n),\n[1] = L (\n LONG,  C \n),\n"
    );
}

#[test]
fn gaps_print_as_blanks_without_comma() {
    let keymap = Keymap {
        layers: vec![layer("0", "L", vec![vec![None, cell("AB"), None, None], vec![cell("C"), None, cell("D"), None]])],
    };
    let mut ops = PrintOptions::default();
    ops.split_space = 1;
    // widths: 1, 2, 1, 0
    assert_eq!(
        keymap_string(&keymap, &ops),
        "[0] = L (\n    AB,      \n C,     D   \n),\n"
    );
}

#[test]
fn empty_keymap_prints_nothing() {
    let keymap = Keymap { layers: vec![] };
    assert_eq!(keymap_string(&keymap, &PrintOptions::default()), "");
}

#[test]
fn layer_without_rows_prints_header_and_footer() {
    let keymap = Keymap { layers: vec![layer("x", "NAME", vec![])] };
    assert_eq!(keymap_string(&keymap, &PrintOptions::default()), "[x] = NAME (\n),\n");
}

#[test]
fn row_of_one_cell_has_no_gutter() {
    let keymap = Keymap { layers: vec![layer("0", "L", vec![vec![cell("A")]])] };
    assert_eq!(keymap_string(&keymap, &PrintOptions::default()), "[0] = L (\nA \n),\n");
}

#[test]
fn ragged_layers_are_measured_column_by_column() {
    let keymap = Keymap {
        layers: vec![
            layer("0", "L", vec![vec![cell("A"), cell("B")]]),
            layer("1", "L", vec![vec![cell("C"), cell("D"), cell("EE"), cell("F")]]),
        ],
    };
    let mut ops = PrintOptions::default();
    ops.split_space = 1;
    assert_eq!(
        keymap_string(&keymap, &ops),
        "[0] = L (\n A, B \n),\n[1] = L (\n C, D, EE ,F \n),\n"
    );
}

#[test]
fn printed_keymap_parses_to_the_same_keymap() {
    let texts = [
        "[0] = L(KC_A, KC_B)",
        "[0] = LAYOUT( KC_A,KC_B,\n KC_Q\n ),\n [1] = LAYOUT( KC_B,KC_B\n KC_1\n )",
        "[_BASE]=LAYOUT_split_3x6_3(\nKC_TAB,KC_Q,LT(1,KC_W),KC_E, LSFT_T( KC_R ),KC_T\nKC_LGUI,MO(2),KC_SPC\n)",
        "[0] = L(A,B,C\nD\nE,F,G,H,I), [x] = M(J\nK,L,M,N,O,P,Q\nR)",
    ];
    for text in texts {
        for shift in 0..3 {
            for thumbs in 0..3 {
                for align in [false, true] {
                    for left in [false, true] {
                        let mut ops = PrintOptions::default();
                        ops.thumb_shift_in = shift;
                        ops.number_of_thumbs = thumbs;
                        ops.align_layers = align;
                        ops.left_align = left;
                        ops.split_space = shift + thumbs;
                        let program = MyParser::parse_program(text).unwrap();
                        let keymap = get_keymap(&program, &ops).unwrap();
                        let printed = keymap_string(&keymap, &ops);
                        let again = MyParser::parse_program(&printed).unwrap();
                        assert_eq!(again, program);
                        let rebuilt = get_keymap(&again, &ops).unwrap();
                        assert_eq!(rebuilt, keymap);
                        assert_eq!(keymap_string(&rebuilt, &ops), printed);
                    }
                }
            }
        }
    }
}
