use qmk_keymap::key::nice_key;
use qmk_keymap::{nice_code, Key, Param, PrintKey};

fn cap(top: &str, middle: &str, bottom: &str) -> PrintKey {
    PrintKey { top: top.to_string(), middle: middle.to_string(), bottom: bottom.to_string() }
}

#[test]
fn key_codes_with_glyphs() {
    assert_eq!(nice_code("KC_UP"), cap("", "↑", ""));
    assert_eq!(nice_code("KC_RGHT"), cap("", "→", ""));
    assert_eq!(nice_code("KC_RIGHT"), cap("", "→", ""));
    assert_eq!(nice_code("KC_NO"), cap("", "", ""));
    assert_eq!(nice_code("XXXXXXX"), cap("", "", ""));
    assert_eq!(nice_code("_______"), cap("", "⇄", ""));
    assert_eq!(nice_code("KC_TRNS"), cap("", "⇄", ""));
    assert_eq!(nice_code("KC_DOT"), cap(">", ".", ""));
    assert_eq!(nice_code("KC_BSLS"), cap("|", "\\", ""));
    assert_eq!(nice_code("KC_QUOTE"), cap("\"", "'", ""));
    assert_eq!(nice_code("KC_1"), cap("!", "1", ""));
    assert_eq!(nice_code("KC_0"), cap(")", "0", ""));
    assert_eq!(nice_code("KC_P5"), cap("Clear", "5", ""));
    assert_eq!(nice_code("KC_PDOT"), cap("⌦", ".", ""));
    assert_eq!(nice_code("KC_DQUO"), cap("", "\"", ""));
    assert_eq!(nice_code("KC_LGUI"), cap("", "⌘", ""));
    assert_eq!(nice_code("KC_SPC"), cap("", "␣", ""));
}

#[test]
fn other_key_codes_lose_their_prefix() {
    assert_eq!(nice_code("KC_A"), cap("", "A", ""));
    assert_eq!(nice_code("KC_F13"), cap("", "F13", ""));
    assert_eq!(nice_code("KC_"), cap("", "", ""));
    assert_eq!(nice_code("KC_MS_U"), cap("", "MS_U", ""));
    assert_eq!(nice_code("QK_REP"), cap("", "QK_REP", ""));
    assert_eq!(nice_code("KC"), cap("", "KC", ""));
    assert_eq!(nice_code("kc_a"), cap("", "kc_a", ""));
}

#[test]
fn layer_tap_shows_layer_at_the_bottom() {
    assert_eq!(nice_code("LT(1,KC_SPC)"), cap("", "␣", "L-1"));
    assert_eq!(nice_code("LT(_NAV, KC_1)"), cap("!", "1", "L-_NAV"));
    assert_eq!(nice_code("LT(MO(2),KC_A)"), cap("", "A", "L-MO(2)"));
    assert_eq!(nice_code("LT(1)"), cap("", "LT(1)", ""));
    assert_eq!(nice_code("LT(1,KC_A,KC_B)"), cap("", "LT(1,KC_A,KC_B)", ""));
    assert_eq!(nice_code("LT(1,2)"), cap("", "2", "L-1"));
}

#[test]
fn mod_tap_shows_modifier_at_the_bottom() {
    for name in ["LSFT_T", "RSFT_T", "SFT_T"] {
        assert_eq!(nice_code(&format!("{}(KC_A)", name)), cap("", "A", "⇧"));
    }
    for name in ["LCTL_T", "RCTL_T", "CTL_T"] {
        assert_eq!(nice_code(&format!("{}(KC_2)", name)), cap("@", "2", "⌃"));
    }
    for name in ["LALT_T", "RALT_T", "ALT_T"] {
        assert_eq!(nice_code(&format!("{}(KC_A)", name)), cap("", "A", "⌥"));
    }
    for name in ["LGUI_T", "RGUI_T", "GUI_T"] {
        assert_eq!(nice_code(&format!("{}(KC_A)", name)), cap("", "A", "⌘"));
    }
    assert_eq!(nice_code("MEH_T(KC_A)"), cap("", "A", "MEH"));
    assert_eq!(nice_code("HYPR(KC_A)"), cap("", "A", "HYPR"));
    assert_eq!(nice_code("ALL_T(KC_A)"), cap("", "A", "HYPR"));
    assert_eq!(nice_code("LSFT_T(KC_A,KC_B)"), cap("", "LSFT_T(KC_A,KC_B)", ""));
}

#[test]
fn modifier_functions_put_their_glyph_first() {
    assert_eq!(nice_code("S(KC_1)"), cap("!", "⇧1", ""));
    assert_eq!(nice_code("LSFT(KC_A)"), cap("", "⇧A", ""));
    assert_eq!(nice_code("C(KC_C)"), cap("", "⌃C", ""));
    assert_eq!(nice_code("LCTL(KC_C)"), cap("", "⌃C", ""));
    assert_eq!(nice_code("A(KC_TAB)"), cap("", "⌥⇥", ""));
    assert_eq!(nice_code("LALT(KC_TAB)"), cap("", "⌥⇥", ""));
    assert_eq!(nice_code("G(KC_SPC)"), cap("", "⌘␣", ""));
    assert_eq!(nice_code("LGUI(S(KC_4))"), cap("$", "⌘⇧4", ""));
}

#[test]
fn other_calls_and_other_texts_show_as_they_are() {
    assert_eq!(nice_code("MO( 1 )"), cap("", "MO(1)", ""));
    assert_eq!(nice_code("TD(TD_ESC , KC_A)"), cap("", "TD(TD_ESC,KC_A)", ""));
    assert_eq!(nice_code("1 + 1"), cap("", "1 + 1", ""));
    assert_eq!(nice_code(""), cap("", "", ""));
}

#[test]
fn caps_of_trees() {
    let key = Key::FunctionCall(
        "LT".to_string(),
        vec![Param::Literal("3".to_string()), Param::Key(Key::KeyCode("KC_ENT".to_string()))],
    );
    assert_eq!(nice_key(&key), cap("", "↵", "L-3"));
    assert_eq!(PrintKey::new("x"), cap("", "x", ""));
    assert_eq!(PrintKey::default(), cap("", "", ""));
}
