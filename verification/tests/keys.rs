use ssh_sync::keys::{button_to_bytes, key_to_bytes, paste_to_bytes};

#[test]
fn arrow_keys_emit_ansi_cursor_sequences() {
    assert_eq!(
        key_to_bytes("\u{F700}", false, false, false),
        Some(b"\x1b[A".to_vec())
    );
    assert_eq!(
        key_to_bytes("\u{F701}", false, false, false),
        Some(b"\x1b[B".to_vec())
    );
    assert_eq!(
        key_to_bytes("\u{F702}", false, false, false),
        Some(b"\x1b[D".to_vec())
    );
    assert_eq!(
        key_to_bytes("\u{F703}", false, false, false),
        Some(b"\x1b[C".to_vec())
    );
}

#[test]
fn tab_returns_cr_backspace_del() {
    // Tab must reach the shell as a real tab so zsh completion fires.
    assert_eq!(
        key_to_bytes("\u{0009}", false, false, false),
        Some(b"\t".to_vec())
    );
    // Enter is CR on a PTY, not LF.
    assert_eq!(
        key_to_bytes("\u{000a}", false, false, false),
        Some(b"\r".to_vec())
    );
    // Backspace sends DEL (xterm convention).
    assert_eq!(
        key_to_bytes("\u{0008}", false, false, false),
        Some(vec![0x7f])
    );
}

#[test]
fn bare_modifiers_are_dropped() {
    assert_eq!(key_to_bytes("\u{0010}", false, true, false), None); // Shift
    assert_eq!(key_to_bytes("\u{0011}", true, false, false), None); // Control
    assert_eq!(key_to_bytes("\u{0012}", false, false, true), None); // Alt
    assert_eq!(key_to_bytes("\u{0017}", false, false, false), None); // Meta
}

#[test]
fn printable_chars_pass_through() {
    assert_eq!(key_to_bytes("a", false, false, false), Some(b"a".to_vec()));
    assert_eq!(key_to_bytes("A", false, true, false), Some(b"A".to_vec()));
    assert_eq!(key_to_bytes(" ", false, false, false), Some(b" ".to_vec()));
}

#[test]
fn shift_tab_is_backtab() {
    assert_eq!(
        key_to_bytes("\u{0009}", false, true, false),
        Some(b"\x1b[Z".to_vec())
    );
}

#[test]
fn ctrl_letter_is_control_byte() {
    assert_eq!(key_to_bytes("c", true, false, false), Some(vec![0x03]));
    assert_eq!(key_to_bytes("d", true, false, false), Some(vec![0x04]));
}

#[test]
fn special_keys() {
    let table: Vec<(&str, &str)> = vec![
        ("\u{19}", "\x1b[Z"),
        ("\u{1b}", "\x1b"),
        ("\u{7f}", "\x1b[3~"),
        ("\u{F704}", "\x1bOP"),
        ("\u{F707}", "\x1bOS"),
        ("\u{F708}", "\x1b[15~"),
        ("\u{F70F}", "\x1b[24~"),
        ("\u{F727}", "\x1b[2~"),
        ("\u{F729}", "\x1b[H"),
        ("\u{F72B}", "\x1b[F"),
        ("\u{F72C}", "\x1b[5~"),
        ("\u{F72D}", "\x1b[6~"),
    ];
    for (key, sent) in table {
        assert_eq!(
            key_to_bytes(key, false, false, false),
            Some(sent.as_bytes().to_vec())
        );
    }
    assert_eq!(key_to_bytes("\u{F7FF}", false, false, false), None);
    assert_eq!(key_to_bytes("", false, false, false), None);
    assert_eq!(
        key_to_bytes("äb", false, false, false),
        Some("äb".as_bytes().to_vec())
    );
}

#[test]
fn ctrl_with_other_keys() {
    assert_eq!(key_to_bytes("Z", true, true, false), Some(vec![0x1a]));
    assert_eq!(key_to_bytes("\u{3}", true, false, false), Some(vec![0x03]));
    assert_eq!(key_to_bytes("1", true, false, false), None);
    assert_eq!(key_to_bytes("ab", true, false, false), None);
}

#[test]
fn buttons() {
    assert_eq!(button_to_bytes("ctrl-c"), Some(vec![0x03]));
    assert_eq!(button_to_bytes("ctrl-d"), Some(vec![0x04]));
    assert_eq!(button_to_bytes("ctrl-z"), Some(vec![0x1a]));
    assert_eq!(button_to_bytes("ctrl-l"), Some(vec![0x0c]));
    assert_eq!(button_to_bytes("tab"), Some(b"\t".to_vec()));
    assert_eq!(button_to_bytes("esc"), Some(vec![0x1b]));
    assert_eq!(button_to_bytes("enter"), Some(b"\r".to_vec()));
    assert_eq!(button_to_bytes("other"), None);
}

#[test]
fn pasted_line_ends_become_carriage_returns() {
    assert_eq!(
        paste_to_bytes("a\r\nb\nc\rd"),
        Some(b"a\rb\rc\rd".to_vec())
    );
    assert_eq!(paste_to_bytes("\n\r\n"), Some(b"\r\r".to_vec()));
    assert_eq!(paste_to_bytes("plain ä"), Some("plain ä".as_bytes().to_vec()));
    assert_eq!(paste_to_bytes(""), None);
}
