use qmk_keymap::{
    format_pair, get_keymap, keymap_string, Key, MyParser, Param, PrintOptions,
};

fn code(name: &str) -> Key {
    Key::KeyCode(name.to_string())
}

#[test]
fn test_grammar_keycode() {
    let example = "KC_A";
    let keys = MyParser::parse_line(example).unwrap();
    assert_eq!(keys.len(), 1);
    let key = MyParser::parse_key(example).unwrap();
    assert_eq!(key, code("KC_A"));
    assert_eq!(format_pair(&key, &PrintOptions::default()), "KC_A")
}

#[test]
fn function1() {
    let example = "LSFT_T(KC_A)";
    let keys = MyParser::parse_line(example).unwrap();
    println!("{:?}", keys);
    assert_eq!(keys.len(), 1);
    let key = MyParser::parse_key(example).unwrap();
    assert_eq!(
        key,
        Key::FunctionCall("LSFT_T".to_string(), vec![Param::Key(code("KC_A"))])
    );
    assert_eq!(format_pair(&key, &PrintOptions::default()), "LSFT_T(KC_A)")
}

#[test]
fn function2() {
    let example = "LT(2,KC_TAB)";
    let keys = MyParser::parse_line(example).unwrap();
    println!("{:?}", keys);
    assert_eq!(keys.len(), 1);
    let key = MyParser::parse_key(example).unwrap();
    assert_eq!(
        key,
        Key::FunctionCall(
            "LT".to_string(),
            vec![Param::Literal("2".to_string()), Param::Key(code("KC_TAB"))]
        )
    );
    assert_eq!(format_pair(&key, &PrintOptions::default()), "LT(2,KC_TAB)")
}

#[test]
fn multiple_keycodes() {
    let example = r#"KC_Q, KC_W, KC_F, KC_P, KC_B,"#;
    let lines = MyParser::parse_layer(example).unwrap();
    assert_eq!(lines.len(), 1);
    let ops = PrintOptions::default();
    let mut keycodes = Vec::new();
    for key in &lines[0] {
        keycodes.push(format_pair(key, &ops));
    }
    assert_eq!(keycodes, vec!["KC_Q", "KC_W", "KC_F", "KC_P", "KC_B"]);
    assert_eq!(MyParser::parse_line(example).unwrap(), lines[0]);
}

#[test]
fn multiple_keycodes_mixed() {
    let example = r#"KC_Q,  S(KC_F),LT(1,KC_W),"#;
    let keys = MyParser::parse_line(example).unwrap();
    println!("{:?}", keys);
    assert_eq!(keys.len(), 3);
    assert_eq!(
        keys,
        vec![
            code("KC_Q"),
            Key::FunctionCall("S".to_string(), vec![Param::Key(code("KC_F"))]),
            Key::FunctionCall(
                "LT".to_string(),
                vec![Param::Literal("1".to_string()), Param::Key(code("KC_W"))]
            ),
        ]
    );
}

#[test]
fn multiple_keycodes_nocomma() {
    let example = r#"KC_Q, KC_W, KC_F, KC_P, KC_B"#;
    let lines = MyParser::parse_layer(example).unwrap();
    assert_eq!(lines.len(), 1);
    assert_eq!(MyParser::parse_line(example).unwrap().len(), 5);
}

#[test]
fn two_lines() {
    let example = r#"KC_Q, KC_W,
       KC_Q, KC_W,
        "#;

    let lines = MyParser::parse_layer(example).unwrap();
    println!("{:?}", lines);
    assert_eq!(lines.len(), 2);
    assert_eq!(lines[0], vec![code("KC_Q"), code("KC_W")]);
    assert_eq!(lines[1], vec![code("KC_Q"), code("KC_W")]);
}

#[test]
fn test_grammar_layer() {
    let example = r#"
            KC_Q, KC_W,
             KC_Q, KC_W,
            KC_Z, LT(2,KC_TAB),
            CW_TOGG ,KC_W
        "#;

    let lines = MyParser::parse_layer(example).unwrap();
    println!("{lines:?}");
    assert_eq!(lines.len(), 4);
    assert_eq!(lines[3], vec![code("CW_TOGG"), code("KC_W")]);
}

#[test]
fn print_keycodes() {
    let example = r#"KC_Q"#;

    let key = MyParser::parse_key(example).unwrap();
    assert_eq!("KC_Q", format_pair(&key, &PrintOptions::default()))
}

#[test]
fn print_function() {
    let example = r#"LT(1,KC_NO)"#;

    let key = MyParser::parse_key(example).unwrap();
    assert_eq!("LT(1,KC_NO)", format_pair(&key, &PrintOptions::default()))
}

#[test]
fn test_layer() {
    let example = r#"[0] = LAYOUT_universal(
              KC_Q, KC_W, KC_F, KC_P, KC_B,                                             KC_1, KC_2, KC_U,    KC_Y,   KC_SCLN,
              LSFT_T(KC_A), KC_R, KC_S, KC_T, KC_G,             KC_M, KC_N, KC_E, KC_I,  KC_O,
              KC_Z, KC_X, KC_C, KC_D, KC_V,                                             KC_K, KC_H, KC_COMM, KC_DOT, KC_QUOTE,
              CW_TOGG , QK_REP , KC_DEL, KC_TAB, LT(1,KC_SPC), KC_ESC,   KC_ENT , KC_BSPC,KC_NO,KC_NO,KC_NO,   SCRL_TO
              )"#;

    let block = MyParser::parse_layerblock(example).unwrap();

    assert_eq!(block.num, "0");
    assert_eq!(block.name, "LAYOUT_universal");
    assert_eq!(block.rows.len(), 4);
    assert_eq!(block.rows[0].len(), 10);
    assert_eq!(block.rows[3].len(), 12);
}

#[test]
fn test_program() {
    let example = r#"
            [0] = LAYOUT_universal( KC_A,KC_B,
            KC_Q, KC_W,
            ),
            [1] = LAYOUT_universal( KC_B)

        "#;
    let program = MyParser::parse_program(example).unwrap();
    println!("{:?}", program);
    assert_eq!(program.blocks.len(), 2);
    assert_eq!(program.blocks[0].rows.len(), 2);
    assert_eq!(program.blocks[1].rows, vec![vec![code("KC_B")]]);
}

#[test]
fn test_comments() {
    let example = r#"
            // This is a comment
            [0] = LAYOUT_universal( KC_A,KC_B,
            KC_Q,/*something
            other
            */ KC_W,
            ),
            [1] = LAYOUT_universal( KC_B)

        "#;
    let program = MyParser::parse_program(example).unwrap();
    println!("{:?}", program);
    assert_eq!(program.blocks.len(), 2);
    assert_eq!(
        program.blocks[0].rows,
        vec![
            vec![code("KC_A"), code("KC_B")],
            vec![code("KC_Q"), code("KC_W")]
        ]
    );
}

#[test]
fn test_uneven() {
    let example = r#"
            [0] = LAYOUT_universal( KC_A,KC_B,
            KC_Q
            ),
            [1] = LAYOUT_universal( KC_B,KC_B
            KC_1
            )

        "#;
    let ops = PrintOptions::default();
    let prog = MyParser::parse_program(example).unwrap();
    let keymap = get_keymap(&prog, &ops).unwrap();
    let text = keymap_string(&keymap, &ops);
    println!("{}", text);
    let a = Some("KC_A".to_string());
    let b = Some("KC_B".to_string());
    let q = Some("KC_Q".to_string());
    assert_eq!(
        keymap.layers[0].keys,
        vec![
            vec![a, None, None, b],
            vec![None, q, None, None],
        ]
    );
}
