use content::dom_exception::DOMException;
use content::identifiers::{ids_contain, next_free_id};
use content::keybinding::{
    apple_standard_keybinding_for_key_down, DeferredAppleStandardKeybinding, Key, KeyEvent,
    Modifiers,
};
use content::microsyntaxes::{
    parse_non_negative_integer, rules_for_parsing_integers,
    rules_for_parsing_non_negative_integers,
};
use content::text::{
    split_ascii_whitespace, str_eq_ignore_ascii_case, str_to_ascii_lowercase,
    str_to_ascii_uppercase, trim_whitespace, u32_to_decimal, u64_to_decimal,
};

fn chars(s: &str) -> Vec<char> {
    s.chars().collect()
}

#[test]
fn integers_skip_leading_whitespace_and_sign() {
    assert_eq!(rules_for_parsing_integers("  42"), Some(42));
    assert_eq!(rules_for_parsing_integers("\t-17px"), Some(-17));
    assert_eq!(rules_for_parsing_integers("+8"), Some(8));
    assert_eq!(rules_for_parsing_integers("12abc34"), Some(12));
}

#[test]
fn integers_reject_missing_digits() {
    assert_eq!(rules_for_parsing_integers(""), None);
    assert_eq!(rules_for_parsing_integers("   "), None);
    assert_eq!(rules_for_parsing_integers("-"), None);
    assert_eq!(rules_for_parsing_integers("+x"), None);
    assert_eq!(rules_for_parsing_integers("abc"), None);
}

#[test]
fn integers_saturate_at_the_bounds() {
    assert_eq!(
        rules_for_parsing_integers("99999999999999999999999"),
        Some(i64::MAX)
    );
    assert_eq!(
        rules_for_parsing_integers("-99999999999999999999999"),
        Some(-i64::MAX)
    );
}

#[test]
fn non_negative_integers_refuse_negatives() {
    assert_eq!(rules_for_parsing_non_negative_integers("7"), Some(7));
    assert_eq!(rules_for_parsing_non_negative_integers("-0"), Some(0));
    assert_eq!(rules_for_parsing_non_negative_integers("-3"), None);
    assert_eq!(rules_for_parsing_non_negative_integers("x"), None);
}

#[test]
fn canvas_dimension_wraps_modulo_two_to_the_32() {
    assert_eq!(parse_non_negative_integer(" 300"), Some(300));
    assert_eq!(parse_non_negative_integer("-0"), Some(0));
    assert_eq!(parse_non_negative_integer("-5"), None);
    assert_eq!(parse_non_negative_integer("4294967296"), Some(0));
    assert_eq!(parse_non_negative_integer("4294967297"), Some(1));
    assert_eq!(parse_non_negative_integer(""), None);
}

#[test]
fn text_case_mapping_and_comparison() {
    assert_eq!(str_to_ascii_lowercase("HeLLo-Ä"), "hello-Ä");
    assert_eq!(str_to_ascii_uppercase("abc-ß"), "ABC-ß");
    assert!(str_eq_ignore_ascii_case("CONTENT-type", "content-TYPE"));
    assert!(!str_eq_ignore_ascii_case("a", "ab"));
}

#[test]
fn text_splits_and_trims() {
    let tokens = split_ascii_whitespace(&chars("  noopener \t noreferrer\n"));
    assert_eq!(tokens, vec![chars("noopener"), chars("noreferrer")]);
    assert!(split_ascii_whitespace(&chars("   ")).is_empty());
    assert_eq!(trim_whitespace(&chars("\u{a0} title \n")), chars("title"));
}

#[test]
fn decimal_rendering() {
    assert_eq!(u32_to_decimal(0), "0");
    assert_eq!(u32_to_decimal(4294967295), "4294967295");
    assert_eq!(u64_to_decimal(1234567890123), "1234567890123");
}

#[test]
fn next_free_id_skips_used_ids() {
    let used = vec![1u32, 2, 4];
    assert!(ids_contain(&used, 2));
    assert!(!ids_contain(&used, 3));
    assert_eq!(next_free_id(0, &used), 3);
    assert_eq!(next_free_id(3, &used), 5);
}

#[test]
fn dom_exception_codes_follow_the_error_names_table() {
    assert_eq!(DOMException::abort_error().code_value(), 20);
    assert_eq!(DOMException::abort_error().name_value(), "AbortError");
    assert_eq!(DOMException::abort_error().message_value(), "");
    assert_eq!(DOMException::timeout_error().code_value(), 23);
    assert_eq!(DOMException::hierarchy_request_error().code_value(), 3);
    assert_eq!(DOMException::not_found_error().code_value(), 8);
    assert_eq!(DOMException::not_supported_error().code_value(), 9);
    assert_eq!(DOMException::syntax_error().code_value(), 12);
    assert_eq!(DOMException::security_error().code_value(), 18);
    let custom = DOMException::new(String::from("bad"), String::from("InvalidCharacterError"));
    assert_eq!(custom.code_value(), 5);
    assert_eq!(custom.message_value(), "bad");
    let code = |n: &str| DOMException::new(String::new(), String::from(n)).code_value();
    assert_eq!(code("IndexSizeError"), 1);
    assert_eq!(code("InvalidStateError"), 11);
    assert_eq!(code("NetworkError"), 19);
    assert_eq!(code("QuotaExceededError"), 22);
    assert_eq!(code("DataCloneError"), 25);
    assert_eq!(code("notfounderror"), 0);
    assert_eq!(code("EncodingError"), 0);
}

fn key_down(key: Key, command: bool, control: bool, option: bool, shift: bool) -> KeyEvent {
    KeyEvent {
        key,
        modifiers: Modifiers { command, control, option, shift },
        pressed: true,
    }
}

#[test]
fn keybindings_for_command_and_option() {
    let e = key_down(Key::ArrowLeft, true, false, false, true);
    assert_eq!(
        apple_standard_keybinding_for_key_down(&e),
        Some("moveToBeginningOfLineAndModifySelection:")
    );
    let e = key_down(Key::Backspace, false, false, true, false);
    assert_eq!(apple_standard_keybinding_for_key_down(&e), Some("deleteWordBackward:"));
    let e = key_down(Key::ArrowUp, false, false, true, false);
    assert_eq!(apple_standard_keybinding_for_key_down(&e), None);
    let e = key_down(Key::Backspace, false, false, false, false);
    assert_eq!(apple_standard_keybinding_for_key_down(&e), Some("deleteBackward:"));
}

#[test]
fn control_keybinding_lowercases_the_key_text() {
    let e = key_down(Key::Character(String::from("A")), false, true, false, false);
    assert_eq!(apple_standard_keybinding_for_key_down(&e), Some("moveToBeginningOfParagraph:"));
    let e = key_down(Key::Character(String::from("E")), false, true, false, true);
    assert_eq!(
        apple_standard_keybinding_for_key_down(&e),
        Some("moveToEndOfParagraphAndModifySelection:")
    );
    let e = key_down(Key::Character(String::from("z")), false, true, false, false);
    assert_eq!(apple_standard_keybinding_for_key_down(&e), None);
}

#[test]
fn released_keys_have_no_binding() {
    let mut e = key_down(Key::Backspace, true, false, false, false);
    e.pressed = false;
    assert_eq!(apple_standard_keybinding_for_key_down(&e), None);
}

#[test]
fn deferred_binding_dispatches_only_when_not_prevented() {
    let e = key_down(Key::Delete, true, false, false, false);
    let deferred = DeferredAppleStandardKeybinding::for_key_down(&e, false).unwrap();
    assert_eq!(deferred.command_to_dispatch(), Some("deleteToEndOfLine:"));
    let prevented = DeferredAppleStandardKeybinding::for_key_down(&e, true).unwrap();
    assert_eq!(prevented.command_to_dispatch(), None);
    assert_eq!(DeferredAppleStandardKeybinding::new().command_to_dispatch(), None);
    let other = key_down(Key::Other, false, false, false, false);
    assert!(DeferredAppleStandardKeybinding::for_key_down(&other, false).is_none());
}
