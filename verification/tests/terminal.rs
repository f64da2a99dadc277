use ssh_sync::terminal::TerminalBuffer;

fn fed(cols: usize, rows: usize, data: &[u8]) -> String {
    let mut t = TerminalBuffer::new(cols, rows);
    t.feed(data);
    t.render()
}

#[test]
fn multibyte_glyph_keeps_one_column() {
    let mut t = TerminalBuffer::new(20, 2);
    // a Nerd Font private-use glyph (3 bytes) followed by text
    t.feed("❯ hostname\r\n".as_bytes());
    assert_eq!(t.render(), "❯ hostname");
}

#[test]
fn strips_color_codes() {
    let mut t = TerminalBuffer::new(40, 2);
    t.feed(b"\x1b[31mred\x1b[0m text");
    assert_eq!(t.render(), "red text");
}

#[test]
fn handles_crlf() {
    let mut t = TerminalBuffer::new(40, 4);
    t.feed(b"a\r\nb\r\nc");
    assert_eq!(t.render(), "a\nb\nc");
}

#[test]
fn clear_screen() {
    let mut t = TerminalBuffer::new(40, 4);
    t.feed(b"abc\x1b[2J");
    assert_eq!(t.render(), "");
}

#[test]
fn partial_utf8_is_buffered() {
    let mut t = TerminalBuffer::new(20, 2);
    let bytes = "❯".as_bytes(); // 3 bytes
    t.feed(&bytes[..1]); // incomplete
    assert_eq!(t.render(), "");
    t.feed(&bytes[1..]);
    assert_eq!(t.render(), "❯");
}

/// A zsh/starship right prompt is drawn by jumping the cursor to the right side of the
/// line (CHA / cursor-forward) and writing the right segments. It must stay on the same
/// line as the left prompt, not wrap.
#[test]
fn right_prompt_stays_on_one_line() {
    let mut t = TerminalBuffer::new(100, 4);
    // left prompt: "~ ❯ "  (❯ is a 3-byte UTF-8 glyph, 1 cell)
    t.feed(b"~ \xe2\x9d\xaf ");
    // zsh moves cursor to column 70 (1-indexed) via CHA
    t.feed(b"\x1b[70G");
    // right prompt segment
    t.feed(b"system host 10:51:50");
    let r = t.render();
    assert!(r.lines().count() <= 1, "right prompt wrapped: {r:?}");
    assert!(r.contains("~ \u{276f}"), "left prompt missing: {r:?}");
    assert!(
        r.contains("system host 10:51:50"),
        "right prompt missing: {r:?}"
    );
}

/// CUF (cursor-forward) by a large amount clamps to the last column but must not itself
/// insert a newline.
#[test]
fn cursor_forward_clamps_without_wrap() {
    let mut t = TerminalBuffer::new(40, 4);
    t.feed(b"ab");
    t.feed(b"\x1b[999C"); // jump far right -> clamps to col 39
    t.feed(b"Z");
    let r = t.render();
    assert!(r.lines().count() <= 1, "unexpected wrap: {r:?}");
    assert!(r.starts_with("ab"), "left text lost: {r:?}");
    assert!(r.contains('Z'), "right char lost: {r:?}");
}

/// When the cursor line-feeds past the last screen row the top row must scroll into the
/// scrollback instead of the screen growing unboundedly.
#[test]
fn scrolls_at_bottom_instead_of_growing() {
    let mut t = TerminalBuffer::new(10, 3);
    t.feed(b"line1\r\nline2\r\nline3\r\nline4");
    // screen holds the last 3 lines; line1 scrolled into the scrollback
    let rendered = t.render();
    let lines: Vec<&str> = rendered.lines().collect();
    // scrollback holds line1; the visible screen is the last 3 rows
    assert_eq!(lines.len(), 4, "scrollback(1)+screen(3): {lines:?}");
    assert_eq!(
        &lines[1..],
        &["line2", "line3", "line4"],
        "screen rows wrong: {lines:?}"
    );
}

/// After the screen scrolls, an absolute cursor-position request (CUP to row 1) must
/// address the top of the *current screen*, not a row that has already scrolled into the
/// scrollback.
#[test]
fn absolute_cursor_targets_current_screen_after_scroll() {
    let mut t = TerminalBuffer::new(10, 3);
    t.feed(b"line1\r\nline2\r\nline3\r\nline4");
    // move to row 1, col 1 (top of the visible screen) and overwrite
    t.feed(b"\x1b[1;1HXXXX");
    let r = t.render();
    let lines: Vec<&str> = r.lines().collect();
    // screen is the last 3 rows; line1 is in the scrollback (row 0)
    assert_eq!(lines[0], "line1", "scrollback row wrong: {r:?}");
    assert!(lines[1].starts_with("XXXX"), "cup hit wrong row: {r:?}");
    assert_eq!(lines[2], "line3", "screen row 2 wrong: {r:?}");
    assert_eq!(lines[3], "line4", "screen row 3 wrong: {r:?}");
}

#[test]
fn pieces_make_no_difference() {
    let data = "left ❯\x1b[1;31m red\x1b[0m\r\n\x1b]0;title\x07äöü\ttab\x1b[2;3Hx".as_bytes();
    let whole = fed(30, 4, data);
    for cut in 0..data.len() {
        let mut t = TerminalBuffer::new(30, 4);
        t.feed(&data[..cut]);
        t.feed(&data[cut..]);
        assert_eq!(t.render(), whole, "cut at {cut}");
    }
    assert_eq!(whole, "left ❯ red\näöx     tab");
}

#[test]
fn malformed_bytes_become_replacement_characters() {
    assert_eq!(fed(20, 2, b"a\x80b"), "a\u{fffd}b");
    assert_eq!(fed(20, 2, b"a\xc3\x28b"), "a\u{fffd}b");
    assert_eq!(fed(20, 2, b"\xff\xfe"), "\u{fffd}\u{fffd}");
}

#[test]
fn wraps_behind_the_last_column() {
    assert_eq!(fed(3, 3, b"abcd"), "abc\nd");
}

#[test]
fn tab_goes_to_the_next_stop() {
    assert_eq!(fed(40, 2, b"ab\tc"), "ab      c");
    assert_eq!(fed(40, 2, b"\tc"), "        c");
    assert_eq!(fed(6, 2, b"ab\tc"), "ab\nc");
}

#[test]
fn cursor_movement() {
    assert_eq!(fed(20, 4, b"abc\x1b[2DX"), "aXc");
    assert_eq!(fed(20, 4, b"a\x1b[2B\x1b[1Gb\x1b[AX"), "a\n X\nb");
    assert_eq!(fed(20, 4, b"a\x1b[2Eb\x1b[Fc"), "a\nc\nb");
    assert_eq!(fed(20, 4, b"x\x1b[3dy"), "x\n\n y");
    assert_eq!(fed(20, 4, b"abc\x08X"), "abX");
    assert_eq!(fed(20, 4, b"abc\rX"), "Xbc");
}

#[test]
fn erasing() {
    assert_eq!(fed(20, 4, b"abcdef\x1b[3G\x1b[K"), "ab");
    assert_eq!(fed(20, 4, b"abcdef\x1b[3G\x1b[1K"), "   def");
    assert_eq!(fed(20, 4, b"abcdef\x1b[2K"), "");
    assert_eq!(fed(20, 4, b"ab\r\ncd\r\nef\x1b[2;2H\x1b[J"), "ab\nc");
    assert_eq!(fed(20, 4, b"ab\r\ncd\r\nef\x1b[2;1H\x1b[1J"), "\n d\nef");
    assert_eq!(fed(20, 4, b"ab\x1b[?2Jc"), "abc");
}

#[test]
fn inserting_and_deleting() {
    assert_eq!(fed(20, 4, b"abcdef\x1b[3G\x1b[2P"), "abef");
    assert_eq!(fed(20, 4, b"abcdef\x1b[3G\x1b[2@"), "ab  cdef");
    assert_eq!(fed(20, 3, b"a\r\nb\r\nc\x1b[2;1H\x1b[L"), "a\n\nb");
    assert_eq!(fed(20, 3, b"a\r\nb\r\nc\x1b[1;1H\x1b[M"), "b\nc");
    assert_eq!(fed(20, 3, b"a\r\nb\x1b[1;1H\x1bMx"), "x\na\nb");
}

#[test]
fn escape_functions() {
    assert_eq!(fed(20, 3, b"a\x1bEb"), "a\nb");
    assert_eq!(fed(20, 3, b"a\x1bDb"), "a\n b");
    assert_eq!(fed(20, 3, b"a\x1b(Bb"), "ab");
    assert_eq!(fed(20, 3, b"abc\x1bc"), "");
    assert_eq!(fed(20, 3, b"a\x1b]0;t\x1b\\b"), "ab");
}

#[test]
fn parameters() {
    // Parts that are no numbers are skipped.
    assert_eq!(fed(20, 4, b"\x1b[2;3HX"), "\n  X");
    assert_eq!(fed(20, 4, b"\x1b[;3HX"), "\n\nX");
    assert_eq!(fed(20, 4, b"\x1b[2:3HX"), "\n  X");
    assert_eq!(fed(20, 4, b"ab\x1b[99999999999999999999DX"), "aX");
}

#[test]
fn resize_keeps_lines() {
    let mut t = TerminalBuffer::new(10, 3);
    t.feed(b"a\r\nb\r\nc");
    t.resize(20, 1);
    assert_eq!(t.cols(), 20);
    assert_eq!(t.render(), "a\nb\nc");
    t.feed(b"\r\nd");
    assert_eq!(t.render(), "a\nb\nc\nd");
    t.resize(0, 0);
    assert_eq!(t.cols(), 1);
    t.resize(10, 5);
    assert_eq!(t.render(), "a\nb\nc\nd");
}

#[test]
fn reset_shows_nothing() {
    let mut t = TerminalBuffer::new(10, 2);
    t.feed(b"a\r\nb\r\nc");
    t.reset();
    assert_eq!(t.render(), "");
    t.feed(b"x");
    assert_eq!(t.render(), "x");
}

#[test]
fn rendering_is_bounded() {
    let mut t = TerminalBuffer::new(10, 2);
    for i in 0..5000 {
        t.feed(format!("{i}\r\n").as_bytes());
    }
    let r = t.render();
    assert_eq!(r.lines().count(), 1500);
    assert!(r.ends_with("4999"));
    assert!(r.starts_with("3500\n"));
}

#[test]
fn scrollback_and_screen_are_capped_together() {
    let mut t = TerminalBuffer::new(10, 3000);
    for i in 0..6000 {
        t.feed(format!("{i}\r\n").as_bytes());
    }
    // Lines 3001 to 5999 and a blank one stand on the screen; it is erased.
    t.feed(b"\x1b[2J");
    let r = t.render();
    assert_eq!(r.lines().count(), 1000);
    assert!(r.starts_with("2001\n"));
    assert!(r.ends_with("\n3000"));
}

#[test]
fn scrolled_off_rows_are_never_rewritten() {
    let mut t = TerminalBuffer::new(10, 2);
    t.feed(b"a\r\nb\r\nc\r\nd");
    // Erase the screen, go home, write and scroll on.
    t.feed(b"\x1b[2J\x1b[1;1Hx\x1b[99A\x1b[2K\r\ny\r\nz");
    let r = t.render();
    assert!(r.starts_with("a\nb\n"), "{r:?}");
}

#[test]
fn feeding_nothing_changes_nothing() {
    // A buffer that holds back the beginning of a character, within an escape sequence.
    let mut t = TerminalBuffer::new(10, 2);
    t.feed(b"ab\xe4\xb8");
    let before = t.render();
    t.feed(b"");
    assert_eq!(t.render(), before);
    t.feed(b"\xad\x1b[3");
    t.feed(b"");
    t.feed(b"Dx");
    assert_eq!(t.render(), "xb\u{4e2d}");
}
