use mbulet::keys::{
    is_prefix_key, key_to_bytes, no_modifiers, prefix_byte, prefix_display, prefix_modifiers, prefix_text,
    KeyCode, KeyEvent, KeyEventKind, KeyModifiers, PREFIX_KEY,
};

fn press(code: KeyCode, modifiers: KeyModifiers) -> KeyEvent {
    KeyEvent { code, modifiers, kind: KeyEventKind::Press }
}

fn bytes(code: KeyCode) -> Option<Vec<u8>> {
    key_to_bytes(press(code, no_modifiers()))
}

fn control(c: char) -> Option<Vec<u8>> {
    key_to_bytes(press(KeyCode::Char(c), prefix_modifiers()))
}

#[test]
fn characters_are_sent_as_utf8() {
    assert_eq!(bytes(KeyCode::Char('a')), Some(b"a".to_vec()));
    assert_eq!(bytes(KeyCode::Char('ß')), Some("ß".as_bytes().to_vec()));
    assert_eq!(bytes(KeyCode::Char('目')), Some("目".as_bytes().to_vec()));
    assert_eq!(bytes(KeyCode::Char('😀')), Some("😀".as_bytes().to_vec()));
}

#[test]
fn control_letters_are_sent_by_their_number() {
    assert_eq!(control('a'), Some(vec![1]));
    assert_eq!(control('c'), Some(vec![3]));
    assert_eq!(control('Z'), Some(vec![26]));
    assert_eq!(control('1'), None);
    assert_eq!(control('['), None);
    assert_eq!(control('š'), Some(vec![1]));
}

#[test]
fn named_keys_have_their_sequences() {
    assert_eq!(bytes(KeyCode::Enter), Some(b"\r".to_vec()));
    assert_eq!(bytes(KeyCode::Backspace), Some(vec![0x7f]));
    assert_eq!(bytes(KeyCode::Esc), Some(vec![0x1b]));
    assert_eq!(bytes(KeyCode::Tab), Some(b"\t".to_vec()));
    assert_eq!(bytes(KeyCode::Up), Some(b"\x1b[A".to_vec()));
    assert_eq!(bytes(KeyCode::Down), Some(b"\x1b[B".to_vec()));
    assert_eq!(bytes(KeyCode::Right), Some(b"\x1b[C".to_vec()));
    assert_eq!(bytes(KeyCode::Left), Some(b"\x1b[D".to_vec()));
    assert_eq!(bytes(KeyCode::Home), Some(b"\x1b[H".to_vec()));
    assert_eq!(bytes(KeyCode::End), Some(b"\x1b[F".to_vec()));
    assert_eq!(bytes(KeyCode::Delete), Some(b"\x1b[3~".to_vec()));
    assert_eq!(bytes(KeyCode::PageUp), Some(b"\x1b[5~".to_vec()));
    assert_eq!(bytes(KeyCode::PageDown), Some(b"\x1b[6~".to_vec()));
    assert_eq!(bytes(KeyCode::Unused), None);
}

#[test]
fn function_keys_have_their_sequences() {
    assert_eq!(bytes(KeyCode::F(1)), Some(b"\x1bOP".to_vec()));
    assert_eq!(bytes(KeyCode::F(2)), Some(b"\x1bOQ".to_vec()));
    assert_eq!(bytes(KeyCode::F(3)), Some(b"\x1bOR".to_vec()));
    assert_eq!(bytes(KeyCode::F(4)), Some(b"\x1bOS".to_vec()));
    assert_eq!(bytes(KeyCode::F(5)), Some(b"\x1b[15~".to_vec()));
    assert_eq!(bytes(KeyCode::F(12)), Some(b"\x1b[22~".to_vec()));
    assert_eq!(bytes(KeyCode::F(0)), Some(b"\x1b[10~".to_vec()));
    assert_eq!(bytes(KeyCode::F(245)), Some(b"\x1b[255~".to_vec()));
}

#[test]
fn prefix_is_control_b() {
    assert!(is_prefix_key(press(KeyCode::Char('b'), prefix_modifiers())));
    assert!(!is_prefix_key(press(KeyCode::Char('b'), no_modifiers())));
    assert!(!is_prefix_key(press(KeyCode::Char('a'), prefix_modifiers())));
    let both = KeyModifiers { shift: true, ..prefix_modifiers() };
    assert!(!is_prefix_key(press(KeyCode::Char('b'), both)));
}

#[test]
fn prefix_byte_is_what_the_key_sends() {
    assert_eq!(prefix_byte(PREFIX_KEY, prefix_modifiers()), 0x02);
    for c in ('a'..='z').chain('A'..='Z') {
        assert_eq!(control(c), Some(vec![prefix_byte(c, prefix_modifiers())]));
    }
    assert_eq!(prefix_byte('1', prefix_modifiers()), 1);
}

#[test]
fn prefix_is_written_with_its_modifier() {
    assert_eq!(prefix_display('b', prefix_modifiers()), "^B");
    assert_eq!(prefix_display('ß', prefix_modifiers()), "^SS");
    let alt = KeyModifiers { alt: true, ..no_modifiers() };
    assert_eq!(prefix_display('x', alt), "M-x");
    assert_eq!(prefix_display('x', no_modifiers()), "x");
    assert_eq!(prefix_text('b', "Q", prefix_modifiers()), "^Q");
}
