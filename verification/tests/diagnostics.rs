use qmk_keymap::{
    format_pair, into_diagnostics, Key, MyError, MyParser, Param, PrintOptions, SyntaxError,
    TokenKind,
};

fn code(name: &str) -> Key {
    Key::KeyCode(name.to_string())
}

#[test]
fn layer_tap_parses_and_renders() {
    let key = MyParser::parse_key("LT(1,KC_SPC)").unwrap();
    assert_eq!(
        key,
        Key::FunctionCall(
            "LT".to_string(),
            vec![Param::Literal("1".to_string()), Param::Key(code("KC_SPC"))]
        )
    );
    assert_eq!(format_pair(&key, &PrintOptions::default()), "LT(1,KC_SPC)");
}

#[test]
fn nested_calls_render_without_blanks() {
    let key = MyParser::parse_key("  LT ( 2 , /* tap */ LSFT_T( KC_A ) )  // done").unwrap();
    let inner = Key::FunctionCall("LSFT_T".to_string(), vec![Param::Key(code("KC_A"))]);
    assert_eq!(
        key,
        Key::FunctionCall(
            "LT".to_string(),
            vec![Param::Literal("2".to_string()), Param::Key(inner)]
        )
    );
    assert_eq!(format_pair(&key, &PrintOptions::default()), "LT(2,LSFT_T(KC_A))");
}

#[test]
fn canonical_text_parses_to_the_same_key() {
    let ops = PrintOptions::default();
    for text in [
        "KC_A",
        "_______",
        "LT( 1 , KC_SPC )",
        "MT(MOD_LCTL|0, KC_A)",
        "A(B(C(D(E,1),2),F(3)),G)",
        "x9 ( 007 )",
    ] {
        if let Ok(key) = MyParser::parse_key(text) {
            let canonical = format_pair(&key, &ops);
            let again = MyParser::parse_key(&canonical).unwrap();
            assert_eq!(again, key);
            assert_eq!(format_pair(&again, &ops), canonical);
        } else {
            assert_eq!(text, "MT(MOD_LCTL|0, KC_A)");
        }
    }
}

fn error_of(text: &str) -> SyntaxError {
    match MyParser::parse_program(text) {
        Err(e) => e,
        Ok(_) => panic!("the text was accepted"),
    }
}

#[test]
fn missing_comma_in_a_row() {
    let e = error_of("[0] = L(KC_A KC_B)");
    assert_eq!(e.line, 1);
    assert_eq!(e.col, 14);
    assert_eq!(
        e.positives,
        vec![TokenKind::Comma, TokenKind::OpenParen, TokenKind::CloseParen, TokenKind::LineBreak]
    );
    assert_eq!(e.negatives, vec![TokenKind::Identifier]);
    assert_eq!(
        into_diagnostics(&e),
        "Parsing error at (1, 14) (expected Comma or OpenParen or CloseParen or LineBreak) (unexpected \"Identifier\")"
    );
    assert_eq!(MyError::from(error_of("[0] = L(KC_A KC_B)")).message(), into_diagnostics(&e));
}

#[test]
fn unknown_character_has_no_negative() {
    let e = error_of("[0] = L(\n  KC_A, #\n)");
    assert_eq!((e.line, e.col), (2, 9));
    assert_eq!(
        e.positives,
        vec![TokenKind::Identifier, TokenKind::CloseParen, TokenKind::LineBreak]
    );
    assert_eq!(e.negatives, vec![]);
    assert_eq!(
        into_diagnostics(&e),
        "Parsing error at (2, 9) (expected Identifier or CloseParen or LineBreak)"
    );
}

#[test]
fn empty_text_is_no_program() {
    let e = error_of("");
    assert_eq!((e.line, e.col), (1, 1));
    assert_eq!(e.positives, vec![TokenKind::OpenBracket]);
    assert_eq!(e.negatives, vec![TokenKind::EndOfInput]);
    assert_eq!(
        into_diagnostics(&e),
        "Parsing error at (1, 1) (expected OpenBracket) (unexpected \"EndOfInput\")"
    );
}

#[test]
fn unclosed_call_and_layer() {
    let e = error_of("[0] = L(LT(1,KC_A\n)");
    assert_eq!((e.line, e.col), (1, 18));
    assert_eq!(
        e.positives,
        vec![TokenKind::Comma, TokenKind::OpenParen, TokenKind::CloseParen]
    );
    assert_eq!(e.negatives, vec![TokenKind::LineBreak]);
    let e = error_of("[0] = L(KC_A,\n\n");
    assert_eq!((e.line, e.col), (3, 1));
    assert_eq!(e.positives, vec![TokenKind::Identifier, TokenKind::CloseParen]);
    assert_eq!(e.negatives, vec![TokenKind::EndOfInput]);
}

#[test]
fn header_errors() {
    let e = error_of("0] = L(KC_A)");
    assert_eq!((e.line, e.col), (1, 1));
    assert_eq!(e.positives, vec![TokenKind::OpenBracket]);
    assert_eq!(e.negatives, vec![TokenKind::Number]);
    let e = error_of("[] = L(KC_A)");
    assert_eq!((e.line, e.col), (1, 2));
    assert_eq!(e.positives, vec![TokenKind::Identifier, TokenKind::Number]);
    assert_eq!(e.negatives, vec![TokenKind::CloseBracket]);
    let e = error_of("[0 = L(KC_A)");
    assert_eq!(e.positives, vec![TokenKind::CloseBracket]);
    let e = error_of("[0] L(KC_A)");
    assert_eq!(e.positives, vec![TokenKind::Equals]);
    let e = error_of("[0] = 7(KC_A)");
    assert_eq!(e.positives, vec![TokenKind::Identifier]);
    let e = error_of("[0] = L KC_A)");
    assert_eq!(e.positives, vec![TokenKind::OpenParen]);
    let e = error_of("[0] = L()");
    assert_eq!(e.positives, vec![TokenKind::Identifier]);
    assert_eq!(e.negatives, vec![TokenKind::CloseParen]);
}

#[test]
fn what_may_follow_a_layer_block() {
    let e = error_of("[0] = L(KC_A) KC_B");
    assert_eq!(
        e.positives,
        vec![TokenKind::Comma, TokenKind::OpenBracket, TokenKind::EndOfInput]
    );
    let e = error_of("[0] = L(KC_A),,");
    assert_eq!(e.positives, vec![TokenKind::OpenBracket, TokenKind::EndOfInput]);
    assert_eq!((e.line, e.col), (1, 15));
    assert!(MyParser::parse_program("[0] = L(KC_A),").is_ok());
    assert!(MyParser::parse_program("[0] = L(KC_A)[1] = L(KC_B)").is_ok());
    assert!(MyParser::parse_program("[0]\n=\nL\n(\nKC_A\n)\n,\n[x]=L(KC_B)\n").is_ok());
}

#[test]
fn comments_and_line_breaks() {
    let rows = MyParser::parse_layer("KC_A, // first\nKC_B /* second\n still second */, KC_C").unwrap();
    assert_eq!(rows, vec![vec![code("KC_A")], vec![code("KC_B"), code("KC_C")]]);
    let e = match MyParser::parse_layer("KC_A /* never closed") {
        Err(e) => e,
        Ok(_) => panic!("the text was accepted"),
    };
    assert_eq!((e.line, e.col), (1, 6));
    assert_eq!(e.negatives, vec![]);
    assert_eq!(
        e.positives,
        vec![
            TokenKind::Comma,
            TokenKind::OpenParen,
            TokenKind::LineBreak,
            TokenKind::EndOfInput
        ]
    );
    let e = match MyParser::parse_key("LT(1,\nKC_A)") {
        Err(e) => e,
        Ok(_) => panic!("the text was accepted"),
    };
    assert_eq!((e.line, e.col), (1, 6));
    assert_eq!(e.positives, vec![TokenKind::Identifier, TokenKind::Number]);
    assert_eq!(e.negatives, vec![TokenKind::LineBreak]);
}

#[test]
fn key_must_be_the_whole_text() {
    let e = match MyParser::parse_key("KC_A KC_B") {
        Err(e) => e,
        Ok(_) => panic!("the text was accepted"),
    };
    assert_eq!((e.line, e.col), (1, 6));
    assert_eq!(e.positives, vec![TokenKind::OpenParen, TokenKind::EndOfInput]);
    let e = match MyParser::parse_key("12") {
        Err(e) => e,
        Ok(_) => panic!("the text was accepted"),
    };
    assert_eq!(e.positives, vec![TokenKind::Identifier]);
    assert_eq!(e.negatives, vec![TokenKind::Number]);
    let e = match MyParser::parse_line("KC_A,,") {
        Err(e) => e,
        Ok(_) => panic!("the text was accepted"),
    };
    assert_eq!((e.line, e.col), (1, 6));
    assert_eq!(e.positives, vec![TokenKind::Identifier, TokenKind::EndOfInput]);
}

#[test]
fn diagnostics_of_large_positions() {
    let e = SyntaxError {
        line: 120,
        col: 4005,
        positives: vec![],
        negatives: vec![TokenKind::Comma, TokenKind::Equals],
    };
    assert_eq!(
        into_diagnostics(&e),
        "Parsing error at (120, 4005) (unexpected \"Comma\", \"Equals\")"
    );
    let e = SyntaxError { line: 0, col: 10, positives: vec![], negatives: vec![] };
    assert_eq!(into_diagnostics(&e), "Parsing error at (0, 10)");
}
