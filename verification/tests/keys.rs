use hawk::keys::{key_to_bytes, KeyCode, KeyEvent, KeyModifiers};

fn key(code: KeyCode, control: bool, alt: bool) -> KeyEvent {
    KeyEvent { code, modifiers: KeyModifiers { control, alt } }
}

fn plain(code: KeyCode) -> Option<Vec<u8>> {
    key_to_bytes(&key(code, false, false))
}

fn with_control(c: char) -> Option<Vec<u8>> {
    key_to_bytes(&key(KeyCode::Char(c), true, false))
}

#[test]
fn named_keys_have_their_sequences() {
    assert_eq!(plain(KeyCode::Enter), Some(b"\r".to_vec()));
    assert_eq!(plain(KeyCode::Backspace), Some(vec![0x7f]));
    assert_eq!(plain(KeyCode::Tab), Some(b"\t".to_vec()));
    assert_eq!(plain(KeyCode::Esc), Some(vec![0x1b]));
    assert_eq!(plain(KeyCode::Up), Some(b"\x1b[A".to_vec()));
    assert_eq!(plain(KeyCode::Down), Some(b"\x1b[B".to_vec()));
    assert_eq!(plain(KeyCode::Right), Some(b"\x1b[C".to_vec()));
    assert_eq!(plain(KeyCode::Left), Some(b"\x1b[D".to_vec()));
    assert_eq!(plain(KeyCode::Home), Some(b"\x1b[H".to_vec()));
    assert_eq!(plain(KeyCode::End), Some(b"\x1b[F".to_vec()));
    assert_eq!(plain(KeyCode::PageUp), Some(b"\x1b[5~".to_vec()));
    assert_eq!(plain(KeyCode::PageDown), Some(b"\x1b[6~".to_vec()));
    assert_eq!(plain(KeyCode::Delete), Some(b"\x1b[3~".to_vec()));
}

#[test]
fn other_keys_send_nothing() {
    assert_eq!(plain(KeyCode::F(1)), None);
    assert_eq!(plain(KeyCode::F(5)), None);
    assert_eq!(plain(KeyCode::Other), None);
}

#[test]
fn modifiers_do_not_change_named_keys() {
    assert_eq!(key_to_bytes(&key(KeyCode::Up, true, true)), Some(b"\x1b[A".to_vec()));
    assert_eq!(key_to_bytes(&key(KeyCode::Enter, false, true)), Some(b"\r".to_vec()));
}

#[test]
fn characters_are_sent_as_text() {
    for c in ['a', 'Z', ' ', 'é', '▸', '😀', '\u{0}'] {
        assert_eq!(plain(KeyCode::Char(c)), Some(c.to_string().into_bytes()));
    }
}

#[test]
fn alt_puts_an_escape_before_a_character() {
    assert_eq!(key_to_bytes(&key(KeyCode::Char('x'), false, true)), Some(b"\x1bx".to_vec()));
    assert_eq!(key_to_bytes(&key(KeyCode::Char('é'), false, true)), Some(b"\x1b\xc3\xa9".to_vec()));
}

#[test]
fn control_gives_control_characters() {
    for (i, c) in ('a'..='z').enumerate() {
        assert_eq!(with_control(c), Some(vec![i as u8 + 1]));
        assert_eq!(with_control(c.to_ascii_uppercase()), Some(vec![i as u8 + 1]));
    }
    assert_eq!(with_control('@'), Some(vec![0]));
    assert_eq!(with_control('['), Some(vec![0x1b]));
    assert_eq!(with_control('_'), Some(vec![0x1f]));
    assert_eq!(key_to_bytes(&key(KeyCode::Char('a'), true, true)), Some(vec![1]));
}

#[test]
fn control_with_other_characters_gives_nothing() {
    for c in [' ', '1', '?', '`', '{', '~', 'é'] {
        assert_eq!(with_control(c), None);
    }
}

#[test]
fn control_takes_the_low_byte_of_a_character() {
    assert_eq!(with_control('Ł'), Some(vec![1]));
    assert_eq!(with_control('\u{2041}'), Some(vec![1]));
    assert_eq!(with_control('\u{161}'), None);
    for code in 0..0x3000u32 {
        if let Some(c) = char::from_u32(code) {
            let upper = c.to_ascii_uppercase() as u8;
            let want = if (b'@'..=b'_').contains(&upper) { Some(vec![upper - b'@']) } else { None };
            assert_eq!(with_control(c), want);
        }
    }
}
