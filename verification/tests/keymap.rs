use qmk_keymap::{
    get_keymap, get_layer, validate, Key, KeymapError, LayerBlock, MyError, MyParser,
    PrintOptions, Program,
};

fn code(name: &str) -> Key {
    Key::KeyCode(name.to_string())
}

fn block(num: &str, rows: Vec<Vec<Key>>) -> LayerBlock {
    LayerBlock { num: num.to_string(), name: "LAYOUT".to_string(), rows }
}

fn rows_of(count: usize, keys: usize) -> Vec<Vec<Key>> {
    (0..count)
        .map(|r| (0..keys).map(|c| code(&format!("K{}_{}", r, c))).collect())
        .collect()
}

#[test]
fn layers_of_four_and_three_rows_are_refused() {
    let program = Program { blocks: vec![block("A", rows_of(4, 2)), block("B", rows_of(3, 2))] };
    let result = get_keymap(&program, &PrintOptions::default());
    match result {
        Err(e) => {
            assert_eq!(e, MyError::KeymapError(KeymapError::RowCountMismatch));
            assert_eq!(e.message(), "All layers must have the same number of keys");
        }
        Ok(_) => panic!("a keymap was built"),
    }
}

#[test]
fn two_layers_of_two_by_two_build() {
    let text = "[0] = L(KC_A, KC_B\nKC_C, KC_D), [1] = L(KC_E, KC_F\nKC_G, KC_H)";
    let program = MyParser::parse_program(text).unwrap();
    let mut ops = PrintOptions::default();
    ops.thumb_shift_in = 0;
    let keymap = get_keymap(&program, &ops).unwrap();
    assert_eq!(keymap.layers.len(), 2);
    assert_eq!(keymap.layers[0].num, "0");
    assert_eq!(keymap.layers[1].num, "1");
    assert_eq!(keymap.layers[0].name, "L");
    assert_eq!(
        keymap.layers[1].keys,
        vec![
            vec![Some("KC_E".to_string()), Some("KC_F".to_string())],
            vec![Some("KC_G".to_string()), Some("KC_H".to_string())],
        ]
    );
    let flipped = "[0] = L(KC_A, KC_B\nKC_C, KC_D), [1] = L(KC_E, KC_F, KC_G, KC_H)";
    let program = MyParser::parse_program(flipped).unwrap();
    match get_keymap(&program, &ops) {
        Err(e) => assert_eq!(e, MyError::KeymapError(KeymapError::RowCountMismatch)),
        Ok(_) => panic!("a keymap was built"),
    }
}

#[test]
fn program_without_layers_is_refused() {
    let program = Program { blocks: vec![] };
    match get_keymap(&program, &PrintOptions::default()) {
        Err(e) => {
            assert_eq!(e, MyError::KeymapError(KeymapError::NoLayers));
            assert_eq!(e.message(), "No layers");
        }
        Ok(_) => panic!("a keymap was built"),
    }
}

#[test]
fn layer_without_rows_is_refused() {
    let program = Program { blocks: vec![block("0", rows_of(2, 2)), block("1", vec![])] };
    match get_keymap(&program, &PrintOptions::default()) {
        Err(e) => {
            assert_eq!(e, MyError::KeymapError(KeymapError::NoRows));
            assert_eq!(e.message(), "No rows");
        }
        Ok(_) => panic!("a keymap was built"),
    }
    match get_layer(&block("1", vec![]), &PrintOptions::default()) {
        Err(e) => assert_eq!(e, MyError::KeymapError(KeymapError::NoRows)),
        Ok(_) => panic!("a layer was built"),
    }
}

#[test]
fn no_rows_come_before_row_count_mismatch() {
    let program = Program {
        blocks: vec![block("0", rows_of(2, 2)), block("1", rows_of(3, 2)), block("2", vec![])],
    };
    match get_keymap(&program, &PrintOptions::default()) {
        Err(e) => assert_eq!(e, MyError::KeymapError(KeymapError::NoRows)),
        Ok(_) => panic!("a keymap was built"),
    }
}

#[test]
fn validate_wants_a_row() {
    assert_eq!(validate(&vec![]), Err(MyError::KeymapError(KeymapError::NoRows)));
    assert_eq!(validate(&vec![vec![]]), Ok(()));
    assert_eq!(validate(&vec![vec!["KC_A".to_string()]]), Ok(()));
}

#[test]
fn layer_keeps_label_and_name_and_normalises() {
    let text = "[_BASE] = LAYOUT_split_3x6_3(\nKC_A, LT(1, KC_B), KC_C, KC_D\nKC_E, KC_F\n)";
    let parsed = MyParser::parse_layerblock(text).unwrap();
    let layer = get_layer(&parsed, &PrintOptions::default()).unwrap();
    assert_eq!(layer.num, "_BASE");
    assert_eq!(layer.name, "LAYOUT_split_3x6_3");
    let cell = |s: &str| Some(s.to_string());
    assert_eq!(
        layer.keys,
        vec![
            vec![cell("KC_A"), cell("LT(1,KC_B)"), None, None, cell("KC_C"), cell("KC_D")],
            vec![None, None, cell("KC_E"), cell("KC_F"), None, None],
        ]
    );
}

#[test]
fn every_built_layer_is_rectangular() {
    let text = r#"
[0]=LAYOUT_split_3x6_3(
KC_TAB,KC_Q,KC_W,KC_E,KC_R,KC_T,KC_Y,KC_U,KC_I,KC_O,KC_P,KC_BSPC,
KC_LCTL,KC_A,KC_S,KC_D,KC_F,KC_G,KC_H,KC_J,KC_K,KC_L,KC_SCLN,KC_QUOT,
KC_LSFT,KC_Z,KC_X,KC_C,KC_V,KC_B,KC_N,KC_M,KC_COMM,KC_DOT,KC_SLSH,KC_ESC,
KC_LGUI,TL_LOWR,KC_SPC,KC_ENT,TL_UPPR,KC_RALT

),

[1]=LAYOUT_split_3x6_3(
KC_TAB,KC_1,KC_2,KC_3,KC_4,KC_5,KC_6,KC_7,KC_8,KC_9,KC_0,KC_BSPC,
KC_LCTL,XXXXXXX,XXXXXXX,XXXXXXX,XXXXXXX,XXXXXXX,KC_LEFT,KC_DOWN,KC_UP,KC_RIGHT,XXXXXXX,XXXXXXX,
KC_LSFT,XXXXXXX,XXXXXXX,XXXXXXX,XXXXXXX,XXXXXXX,XXXXXXX,XXXXXXX,XXXXXXX,XXXXXXX,XXXXXXX,XXXXXXX,
KC_LGUI,_______,KC_SPC,KC_ENT,_______,KC_RALT
),
        "#;
    let program = MyParser::parse_program(text).unwrap();
    let keymap = get_keymap(&program, &PrintOptions::default()).unwrap();
    assert_eq!(keymap.layers.len(), 2);
    for layer in &keymap.layers {
        assert_eq!(layer.keys.len(), 4);
        for row in &layer.keys {
            assert_eq!(row.len(), 14);
        }
        assert_eq!(layer.keys[3][3], None);
        assert_eq!(layer.keys[3][4], Some("KC_LGUI".to_string()));
    }
}
