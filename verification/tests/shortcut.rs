use clipit::shortcut::{key_code_from_token, parse_lowered, parse_shortcut, ParsedShortcut};

fn chord(ctrl: bool, shift: bool, alt: bool, meta: bool, key: char) -> Option<ParsedShortcut> {
    Some(ParsedShortcut { ctrl, shift, alt, meta, key })
}

#[test]
fn default_hotkeys_parse() {
    assert_eq!(parse_shortcut("Ctrl+Shift+P"), chord(true, true, false, false, 'p'));
    assert_eq!(parse_shortcut("Cmd+Shift+P"), chord(false, true, false, true, 'p'));
}

#[test]
fn capitals_and_whitespace_do_not_matter() {
    assert_eq!(parse_shortcut("  CONTROL + alt +  k "), chord(true, false, true, false, 'k'));
    assert_eq!(parse_shortcut("Option+Command+Z"), chord(false, false, true, true, 'z'));
    assert_eq!(parse_shortcut("super+a"), chord(false, false, false, true, 'a'));
}

#[test]
fn the_last_letter_is_the_key() {
    assert_eq!(parse_shortcut("a+b+shift"), chord(false, true, false, false, 'b'));
    assert_eq!(parse_shortcut("q"), chord(false, false, false, false, 'q'));
}

#[test]
fn a_description_without_a_letter_is_no_hotkey() {
    assert_eq!(parse_shortcut("Ctrl+Shift"), None);
    assert_eq!(parse_shortcut(""), None);
    assert_eq!(parse_shortcut("Ctrl+F5"), None);
    assert_eq!(parse_shortcut("Ctrl+1"), None);
    assert_eq!(parse_shortcut("+"), None);
}

#[test]
fn unknown_words_are_passed_over() {
    assert_eq!(parse_shortcut("Hyper+Ctrl++x+??"), chord(true, false, false, false, 'x'));
}

#[test]
fn parse_lowered_wants_lower_case() {
    assert_eq!(parse_lowered("ctrl+p"), chord(true, false, false, false, 'p'));
    assert_eq!(parse_lowered("Ctrl+p"), chord(false, false, false, false, 'p'));
    assert_eq!(parse_lowered("ctrl+P"), None);
}

#[test]
fn a_key_token_is_one_small_letter() {
    assert_eq!(key_code_from_token("a"), Some('a'));
    assert_eq!(key_code_from_token("z"), Some('z'));
    assert_eq!(key_code_from_token("A"), None);
    assert_eq!(key_code_from_token("ab"), None);
    assert_eq!(key_code_from_token(""), None);
    assert_eq!(key_code_from_token("1"), None);
    assert_eq!(key_code_from_token("é"), None);
}
