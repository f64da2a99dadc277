//! Keys: what the remote terminal is sent for what the user does.

use vstd::prelude::*;
use vstd::utf8::*;

use crate::text;

verus! {

/// The encoding of a text.
fn bytes_of(s: &str) -> (r: Vec<u8>)
    ensures
        r@ == encode_utf8(s@),
{
    let r = vstd::slice::slice_to_vec(s.as_bytes());
    assert(r@ =~= encode_utf8(s@));
    r
}

/// The text that a key press sends, where no Control is held: `s` is the text of the key
/// event, in which special keys are single control or private-use characters. Keys
/// without a meaning send nothing.
pub open spec fn key_text(s: Seq<char>, shift: bool) -> Option<Seq<char>> {
    let c = s[0];
    if c == '\u{8}' {
        Some("\u{7f}"@)
    } else if c == '\u{9}' && shift {
        Some("\u{1b}[Z"@)
    } else if c == '\u{9}' {
        Some("\t"@)
    } else if c == '\u{a}' {
        Some("\r"@)
    } else if c == '\u{19}' {
        Some("\u{1b}[Z"@)
    } else if c == '\u{1b}' {
        Some("\u{1b}"@)
    } else if c == '\u{7f}' {
        Some("\u{1b}[3~"@)
    } else if c == '\u{f700}' {
        Some("\u{1b}[A"@)
    } else if c == '\u{f701}' {
        Some("\u{1b}[B"@)
    } else if c == '\u{f702}' {
        Some("\u{1b}[D"@)
    } else if c == '\u{f703}' {
        Some("\u{1b}[C"@)
    } else if c == '\u{f704}' {
        Some("\u{1b}OP"@)
    } else if c == '\u{f705}' {
        Some("\u{1b}OQ"@)
    } else if c == '\u{f706}' {
        Some("\u{1b}OR"@)
    } else if c == '\u{f707}' {
        Some("\u{1b}OS"@)
    } else if c == '\u{f708}' {
        Some("\u{1b}[15~"@)
    } else if c == '\u{f709}' {
        Some("\u{1b}[17~"@)
    } else if c == '\u{f70a}' {
        Some("\u{1b}[18~"@)
    } else if c == '\u{f70b}' {
        Some("\u{1b}[19~"@)
    } else if c == '\u{f70c}' {
        Some("\u{1b}[20~"@)
    } else if c == '\u{f70d}' {
        Some("\u{1b}[21~"@)
    } else if c == '\u{f70e}' {
        Some("\u{1b}[23~"@)
    } else if c == '\u{f70f}' {
        Some("\u{1b}[24~"@)
    } else if c == '\u{f727}' {
        Some("\u{1b}[2~"@)
    } else if c == '\u{f729}' {
        Some("\u{1b}[H"@)
    } else if c == '\u{f72b}' {
        Some("\u{1b}[F"@)
    } else if c == '\u{f72c}' {
        Some("\u{1b}[5~"@)
    } else if c == '\u{f72d}' {
        Some("\u{1b}[6~"@)
    } else if '\u{f700}' <= c && c <= '\u{f7ff}' {
        None
    } else {
        Some(s)
    }
}

/// Whether a character is a letter of ASCII.
pub open spec fn is_letter(c: char) -> bool {
    ||| 'A' <= c && c <= 'Z'
    ||| 'a' <= c && c <= 'z'
}

fn letter(c: char) -> (r: bool)
    ensures
        r == is_letter(c),
{
    if 'A' <= c && c <= 'Z' {
        true
    } else {
        'a' <= c && c <= 'z'
    }
}

/// The bytes that a key press sends. A modifier key on its own sends nothing. With
/// Control held a letter sends its control byte, a control character itself, and every
/// other key nothing.
pub open spec fn key_bytes(s: Seq<char>, ctrl: bool, shift: bool) -> Option<Seq<u8>> {
    if s.len() == 0 || '\u{10}' <= s[0] && s[0] <= '\u{18}' {
        None
    } else if ctrl {
        if s.len() == 1 && is_letter(s[0]) {
            Some(seq![(s[0] as u32 % 32) as u8])
        } else if s.len() == 1 && s[0] <= '\u{1f}' {
            Some(seq![s[0] as u8])
        } else {
            None
        }
    } else {
        match key_text(s, shift) {
            Some(t) => Some(encode_utf8(t)),
            None => None,
        }
    }
}

/// Translate a key event into the bytes to send to the remote PTY.
///
/// The user interface encodes special keys as single Unicode characters: control
/// characters for Backspace/Tab/Return/Escape and Private-Use-Area code points (U+F700...)
/// for the arrow, navigation and function keys. We map those to the byte sequences an
/// xterm-style PTY expects. Plain modifier key presses (Shift/Control/Alt/Meta alone,
/// U+0010..=U+0018) are dropped so they never reach the shell.
pub fn key_to_bytes(s: &str, ctrl: bool, shift: bool, _alt: bool) -> (r: Option<Vec<u8>>)
    ensures
        match r {
            Some(v) => key_bytes(s@, ctrl, shift) == Some(v@),
            None => key_bytes(s@, ctrl, shift) is None,
        },
{
    let chars = text::chars_of(s);
    if chars.len() == 0 {
        return None;
    }
    let c = chars[0];
    // Drop bare modifier keys first, so pressing a modifier alone never sends anything
    // to the shell.
    if '\u{10}' <= c && c <= '\u{18}' {
        return None;
    }
    if ctrl {
        // Single ASCII letter -> control byte (Ctrl+C = 0x03, ...).
        if chars.len() == 1 && letter(c) {
            let v: Vec<u8> = vec![(c as u32 % 32) as u8];
            assert(v@ =~= seq![(c as u32 % 32) as u8]);
            return Some(v);
        }
        // Some platforms deliver the control character directly (e.g. Ctrl+C as U+0003);
        // pass it through unchanged.
        if chars.len() == 1 && c <= '\u{1f}' {
            let v: Vec<u8> = vec![c as u8];
            assert(v@ =~= seq![c as u8]);
            return Some(v);
        }
        return None;
    }
    let bytes = match c {
        '\u{8}' => bytes_of("\u{7f}"),  // Backspace -> DEL
        '\u{9}' if shift => bytes_of("\u{1b}[Z"),  // Shift+Tab (back-tab)
        '\u{9}' => bytes_of("\t"),  // Tab
        '\u{a}' => bytes_of("\r"),  // Return -> CR
        '\u{19}' => bytes_of("\u{1b}[Z"),  // Backtab
        '\u{1b}' => bytes_of("\u{1b}"),  // Escape
        '\u{7f}' => bytes_of("\u{1b}[3~"),  // Delete (forward)
        '\u{f700}' => bytes_of("\u{1b}[A"),  // Up
        '\u{f701}' => bytes_of("\u{1b}[B"),  // Down
        '\u{f702}' => bytes_of("\u{1b}[D"),  // Left
        '\u{f703}' => bytes_of("\u{1b}[C"),  // Right
        '\u{f704}' => bytes_of("\u{1b}OP"),  // F1
        '\u{f705}' => bytes_of("\u{1b}OQ"),  // F2
        '\u{f706}' => bytes_of("\u{1b}OR"),  // F3
        '\u{f707}' => bytes_of("\u{1b}OS"),  // F4
        '\u{f708}' => bytes_of("\u{1b}[15~"),  // F5
        '\u{f709}' => bytes_of("\u{1b}[17~"),  // F6
        '\u{f70a}' => bytes_of("\u{1b}[18~"),  // F7
        '\u{f70b}' => bytes_of("\u{1b}[19~"),  // F8
        '\u{f70c}' => bytes_of("\u{1b}[20~"),  // F9
        '\u{f70d}' => bytes_of("\u{1b}[21~"),  // F10
        '\u{f70e}' => bytes_of("\u{1b}[23~"),  // F11
        '\u{f70f}' => bytes_of("\u{1b}[24~"),  // F12
        '\u{f727}' => bytes_of("\u{1b}[2~"),  // Insert
        '\u{f729}' => bytes_of("\u{1b}[H"),  // Home
        '\u{f72b}' => bytes_of("\u{1b}[F"),  // End
        '\u{f72c}' => bytes_of("\u{1b}[5~"),  // PageUp
        '\u{f72d}' => bytes_of("\u{1b}[6~"),  // PageDown
        _ => {
            if '\u{f700}' <= c && c <= '\u{f7ff}' {
                return None;  // unmapped fn/nav key
            }
            bytes_of(s)
        },
    };
    Some(bytes)
}

/// The bytes of a toolbar button.
pub open spec fn button_bytes(name: Seq<char>) -> Option<Seq<u8>> {
    if name == "ctrl-c"@ {
        Some(seq![0x03u8])
    } else if name == "ctrl-d"@ {
        Some(seq![0x04u8])
    } else if name == "ctrl-z"@ {
        Some(seq![0x1au8])
    } else if name == "ctrl-l"@ {
        Some(seq![0x0cu8])
    } else if name == "tab"@ {
        Some(seq![0x09u8])
    } else if name == "esc"@ {
        Some(seq![0x1bu8])
    } else if name == "enter"@ {
        Some(seq![0x0du8])
    } else {
        None
    }
}

fn one_byte(b: u8) -> (r: Option<Vec<u8>>)
    ensures
        r matches Some(v) && v@ == seq![b],
{
    let v: Vec<u8> = vec![b];
    assert(v@ =~= seq![b]);
    Some(v)
}

/// The bytes of a toolbar button.
pub fn button_to_bytes(name: &str) -> (r: Option<Vec<u8>>)
    ensures
        match r {
            Some(v) => button_bytes(name@) == Some(v@),
            None => button_bytes(name@) is None,
        },
{
    if text::same_text(name, "ctrl-c") {
        one_byte(0x03)
    } else if text::same_text(name, "ctrl-d") {
        one_byte(0x04)
    } else if text::same_text(name, "ctrl-z") {
        one_byte(0x1a)
    } else if text::same_text(name, "ctrl-l") {
        one_byte(0x0c)
    } else if text::same_text(name, "tab") {
        one_byte(0x09)
    } else if text::same_text(name, "esc") {
        one_byte(0x1b)
    } else if text::same_text(name, "enter") {
        one_byte(0x0d)
    } else {
        None
    }
}

/// A pasted text with every line end replaced by the one of a PTY.
pub open spec fn pasted(s: Seq<char>) -> Seq<char> {
    text::replaced(
        text::replaced(text::replaced(s, "\r\n"@, "\n"@), "\r"@, "\n"@),
        "\n"@,
        "\r"@,
    )
}

/// The bytes of a pasted text: CRLF/LF become CR (the PTY line ending). An empty text
/// sends nothing.
pub fn paste_to_bytes(s: &str) -> (r: Option<Vec<u8>>)
    ensures
        match r {
            Some(v) => s@.len() > 0 && v@ == encode_utf8(pasted(s@)),
            None => s@.len() == 0,
        },
{
    if s.is_empty() {
        return None;
    }
    proof {
        reveal_strlit("\r\n");
        reveal_strlit("\r");
        reveal_strlit("\n");
    }
    let t = text::replace(s, "\r\n", "\n");
    let t = text::replace(t.as_str(), "\r", "\n");
    let t = text::replace(t.as_str(), "\n", "\r");
    Some(bytes_of(t.as_str()))
}

// ---------------------------------------------------------------------------
// Laws
// ---------------------------------------------------------------------------

/// A modifier key on its own sends nothing, whatever else is held.
pub proof fn law_modifiers_send_nothing(s: Seq<char>, ctrl: bool, shift: bool)
    requires
        s.len() > 0,
        '\u{10}' <= s[0] && s[0] <= '\u{18}',
    ensures
        key_bytes(s, ctrl, shift) is None,
{
}

/// Text that begins with no special key is sent as it is.
pub proof fn law_text_is_sent_unchanged(s: Seq<char>, shift: bool)
    requires
        s.len() > 0,
        '\u{20}' <= s[0],
        s[0] != '\u{7f}',
        !('\u{f700}' <= s[0] && s[0] <= '\u{f7ff}'),
    ensures
        key_bytes(s, false, shift) == Some(encode_utf8(s)),
{
}

/// Replacing one character by another changes each occurrence and nothing else.
pub proof fn lemma_replaced_char(s: Seq<char>, a: char, b: char)
    ensures
        text::replaced(s, seq![a], seq![b]) == s.map_values(
            |c: char|
                if c == a {
                    b
                } else {
                    c
                },
        ),
    decreases s.len(),
{
    let f = |c: char|
        if c == a {
            b
        } else {
            c
        };
    if s.len() == 0 {
        assert(s.map_values(f) =~= s);
    } else {
        lemma_replaced_char(s.skip(1), a, b);
        assert(s.take(1) =~= seq![s[0]]);
        if s[0] == a {
            assert(s.take(1) == seq![a]);
        } else {
            assert(s.take(1)[0] != seq![a][0]);
        }
        assert(s.map_values(f) =~= seq![f(s[0])] + s.skip(1).map_values(f));
    }
}

/// No line feed is ever pasted.
pub proof fn law_paste_sends_no_line_feed(s: Seq<char>)
    ensures
        !pasted(s).contains('\n'),
{
    reveal_strlit("\r");
    reveal_strlit("\n");
    assert("\r"@ =~= seq!['\r']);
    assert("\n"@ =~= seq!['\n']);
    let t = text::replaced(text::replaced(s, "\r\n"@, "\n"@), "\r"@, "\n"@);
    lemma_replaced_char(t, '\n', '\r');
    let p = pasted(s);
    assert forall|i: int| 0 <= i < p.len() implies p[i] != '\n' by {}
}

proof fn lemma_replaced_absent(s: Seq<char>, from: Seq<char>, to: Seq<char>)
    requires
        from.len() > 0,
        !s.contains(from[0]),
    ensures
        text::replaced(s, from, to) == s,
    decreases s.len(),
{
    if s.len() >= from.len() {
        assert(s.contains(s[0]));
        assert(s.take(from.len() as int)[0] == s[0]);
        let rest = s.skip(1);
        assert forall|c: char| rest.contains(c) implies s.contains(c) by {
            let i = choose|i: int| 0 <= i < rest.len() && rest[i] == c;
            assert(s[i + 1] == c);
        }
        lemma_replaced_absent(rest, from, to);
        assert(seq![s[0]] + rest =~= s);
    }
}

/// A text within one line is pasted unchanged.
pub proof fn law_paste_keeps_a_line(s: Seq<char>)
    requires
        !s.contains('\n'),
        !s.contains('\r'),
    ensures
        pasted(s) == s,
{
    reveal_strlit("\r\n");
    reveal_strlit("\r");
    reveal_strlit("\n");
    lemma_replaced_absent(s, "\r\n"@, "\n"@);
    lemma_replaced_absent(s, "\r"@, "\n"@);
    lemma_replaced_absent(s, "\n"@, "\r"@);
}

/// The bytes of an ASCII text are its characters.
proof fn lemma_ascii_bytes(s: Seq<char>, b: Seq<u8>)
    requires
        s.len() == b.len(),
        forall|i: int| 0 <= i < s.len() ==> #[trigger] s[i] as int == b[i] && b[i] < 128,
    ensures
        encode_utf8(s) == b,
{
    assert(is_ascii_chars(s)) by {
        assert forall|i: int| 0 <= i < s.len() implies '\0' <= #[trigger] s[i] <= '\u{7f}' by {}
    }
    is_ascii_chars_encode_utf8(s);
    assert(encode_utf8(s) =~= b);
}

/// The arrow keys and the keys for moving around send the sequences of an xterm, whatever
/// else is held but Control.
pub proof fn law_arrows_and_navigation_keys(s: Seq<char>, shift: bool)
    requires
        s.len() > 0,
    ensures
        // Up
        s[0] == '\u{f700}' ==> key_bytes(s, false, shift) == Some(seq![0x1bu8, 0x5b, 0x41]),
        // Down
        s[0] == '\u{f701}' ==> key_bytes(s, false, shift) == Some(seq![0x1bu8, 0x5b, 0x42]),
        // Left
        s[0] == '\u{f702}' ==> key_bytes(s, false, shift) == Some(seq![0x1bu8, 0x5b, 0x44]),
        // Right
        s[0] == '\u{f703}' ==> key_bytes(s, false, shift) == Some(seq![0x1bu8, 0x5b, 0x43]),
        // Insert
        s[0] == '\u{f727}' ==> key_bytes(s, false, shift) == Some(seq![0x1bu8, 0x5b, 0x32, 0x7e]),
        // Delete
        s[0] == '\u{7f}' ==> key_bytes(s, false, shift) == Some(seq![0x1bu8, 0x5b, 0x33, 0x7e]),
        // Home
        s[0] == '\u{f729}' ==> key_bytes(s, false, shift) == Some(seq![0x1bu8, 0x5b, 0x48]),
        // End
        s[0] == '\u{f72b}' ==> key_bytes(s, false, shift) == Some(seq![0x1bu8, 0x5b, 0x46]),
        // PageUp
        s[0] == '\u{f72c}' ==> key_bytes(s, false, shift) == Some(seq![0x1bu8, 0x5b, 0x35, 0x7e]),
        // PageDown
        s[0] == '\u{f72d}' ==> key_bytes(s, false, shift) == Some(seq![0x1bu8, 0x5b, 0x36, 0x7e]),
{
    if s[0] == '\u{f700}' {
        reveal_strlit("\u{1b}[A");
        lemma_ascii_bytes("\u{1b}[A"@, seq![0x1bu8, 0x5b, 0x41]);
    }
    if s[0] == '\u{f701}' {
        reveal_strlit("\u{1b}[B");
        lemma_ascii_bytes("\u{1b}[B"@, seq![0x1bu8, 0x5b, 0x42]);
    }
    if s[0] == '\u{f702}' {
        reveal_strlit("\u{1b}[D");
        lemma_ascii_bytes("\u{1b}[D"@, seq![0x1bu8, 0x5b, 0x44]);
    }
    if s[0] == '\u{f703}' {
        reveal_strlit("\u{1b}[C");
        lemma_ascii_bytes("\u{1b}[C"@, seq![0x1bu8, 0x5b, 0x43]);
    }
    if s[0] == '\u{f727}' {
        reveal_strlit("\u{1b}[2~");
        lemma_ascii_bytes("\u{1b}[2~"@, seq![0x1bu8, 0x5b, 0x32, 0x7e]);
    }
    if s[0] == '\u{7f}' {
        reveal_strlit("\u{1b}[3~");
        lemma_ascii_bytes("\u{1b}[3~"@, seq![0x1bu8, 0x5b, 0x33, 0x7e]);
    }
    if s[0] == '\u{f729}' {
        reveal_strlit("\u{1b}[H");
        lemma_ascii_bytes("\u{1b}[H"@, seq![0x1bu8, 0x5b, 0x48]);
    }
    if s[0] == '\u{f72b}' {
        reveal_strlit("\u{1b}[F");
        lemma_ascii_bytes("\u{1b}[F"@, seq![0x1bu8, 0x5b, 0x46]);
    }
    if s[0] == '\u{f72c}' {
        reveal_strlit("\u{1b}[5~");
        lemma_ascii_bytes("\u{1b}[5~"@, seq![0x1bu8, 0x5b, 0x35, 0x7e]);
    }
    if s[0] == '\u{f72d}' {
        reveal_strlit("\u{1b}[6~");
        lemma_ascii_bytes("\u{1b}[6~"@, seq![0x1bu8, 0x5b, 0x36, 0x7e]);
    }
}

/// The function keys send the sequences of an xterm: ESC O and a letter for the first four,
/// then ESC [ and a number, which leaves out 16 and 22.
pub proof fn law_function_keys(s: Seq<char>, shift: bool)
    requires
        s.len() > 0,
    ensures
        // F1
        s[0] == '\u{f704}' ==> key_bytes(s, false, shift) == Some(seq![0x1bu8, 0x4f, 0x50]),
        // F2
        s[0] == '\u{f705}' ==> key_bytes(s, false, shift) == Some(seq![0x1bu8, 0x4f, 0x51]),
        // F3
        s[0] == '\u{f706}' ==> key_bytes(s, false, shift) == Some(seq![0x1bu8, 0x4f, 0x52]),
        // F4
        s[0] == '\u{f707}' ==> key_bytes(s, false, shift) == Some(seq![0x1bu8, 0x4f, 0x53]),
        // F5
        s[0] == '\u{f708}' ==> key_bytes(s, false, shift) == Some(seq![0x1bu8, 0x5b, 0x31, 0x35, 0x7e]),
        // F6
        s[0] == '\u{f709}' ==> key_bytes(s, false, shift) == Some(seq![0x1bu8, 0x5b, 0x31, 0x37, 0x7e]),
        // F7
        s[0] == '\u{f70a}' ==> key_bytes(s, false, shift) == Some(seq![0x1bu8, 0x5b, 0x31, 0x38, 0x7e]),
        // F8
        s[0] == '\u{f70b}' ==> key_bytes(s, false, shift) == Some(seq![0x1bu8, 0x5b, 0x31, 0x39, 0x7e]),
        // F9
        s[0] == '\u{f70c}' ==> key_bytes(s, false, shift) == Some(seq![0x1bu8, 0x5b, 0x32, 0x30, 0x7e]),
        // F10
        s[0] == '\u{f70d}' ==> key_bytes(s, false, shift) == Some(seq![0x1bu8, 0x5b, 0x32, 0x31, 0x7e]),
        // F11
        s[0] == '\u{f70e}' ==> key_bytes(s, false, shift) == Some(seq![0x1bu8, 0x5b, 0x32, 0x33, 0x7e]),
        // F12
        s[0] == '\u{f70f}' ==> key_bytes(s, false, shift) == Some(seq![0x1bu8, 0x5b, 0x32, 0x34, 0x7e]),
{
    if s[0] == '\u{f704}' {
        reveal_strlit("\u{1b}OP");
        lemma_ascii_bytes("\u{1b}OP"@, seq![0x1bu8, 0x4f, 0x50]);
    }
    if s[0] == '\u{f705}' {
        reveal_strlit("\u{1b}OQ");
        lemma_ascii_bytes("\u{1b}OQ"@, seq![0x1bu8, 0x4f, 0x51]);
    }
    if s[0] == '\u{f706}' {
        reveal_strlit("\u{1b}OR");
        lemma_ascii_bytes("\u{1b}OR"@, seq![0x1bu8, 0x4f, 0x52]);
    }
    if s[0] == '\u{f707}' {
        reveal_strlit("\u{1b}OS");
        lemma_ascii_bytes("\u{1b}OS"@, seq![0x1bu8, 0x4f, 0x53]);
    }
    if s[0] == '\u{f708}' {
        reveal_strlit("\u{1b}[15~");
        lemma_ascii_bytes("\u{1b}[15~"@, seq![0x1bu8, 0x5b, 0x31, 0x35, 0x7e]);
    }
    if s[0] == '\u{f709}' {
        reveal_strlit("\u{1b}[17~");
        lemma_ascii_bytes("\u{1b}[17~"@, seq![0x1bu8, 0x5b, 0x31, 0x37, 0x7e]);
    }
    if s[0] == '\u{f70a}' {
        reveal_strlit("\u{1b}[18~");
        lemma_ascii_bytes("\u{1b}[18~"@, seq![0x1bu8, 0x5b, 0x31, 0x38, 0x7e]);
    }
    if s[0] == '\u{f70b}' {
        reveal_strlit("\u{1b}[19~");
        lemma_ascii_bytes("\u{1b}[19~"@, seq![0x1bu8, 0x5b, 0x31, 0x39, 0x7e]);
    }
    if s[0] == '\u{f70c}' {
        reveal_strlit("\u{1b}[20~");
        lemma_ascii_bytes("\u{1b}[20~"@, seq![0x1bu8, 0x5b, 0x32, 0x30, 0x7e]);
    }
    if s[0] == '\u{f70d}' {
        reveal_strlit("\u{1b}[21~");
        lemma_ascii_bytes("\u{1b}[21~"@, seq![0x1bu8, 0x5b, 0x32, 0x31, 0x7e]);
    }
    if s[0] == '\u{f70e}' {
        reveal_strlit("\u{1b}[23~");
        lemma_ascii_bytes("\u{1b}[23~"@, seq![0x1bu8, 0x5b, 0x32, 0x33, 0x7e]);
    }
    if s[0] == '\u{f70f}' {
        reveal_strlit("\u{1b}[24~");
        lemma_ascii_bytes("\u{1b}[24~"@, seq![0x1bu8, 0x5b, 0x32, 0x34, 0x7e]);
    }
}

/// The keys for editing a line: Backspace deletes, Return ends the line with a carriage
/// return, Escape is itself, and Tab goes back with Shift, as Backtab does.
pub proof fn law_editing_keys(s: Seq<char>, shift: bool)
    requires
        s.len() > 0,
    ensures
        s[0] == '\u{8}' ==> key_bytes(s, false, shift) == Some(seq![0x7fu8]),
        s[0] == '\u{9}' && !shift ==> key_bytes(s, false, shift) == Some(seq![0x09u8]),
        s[0] == '\u{9}' && shift ==> key_bytes(s, false, shift) == Some(seq![0x1bu8, 0x5b, 0x5a]),
        s[0] == '\u{19}' ==> key_bytes(s, false, shift) == Some(seq![0x1bu8, 0x5b, 0x5a]),
        s[0] == '\u{a}' ==> key_bytes(s, false, shift) == Some(seq![0x0du8]),
        s[0] == '\u{1b}' ==> key_bytes(s, false, shift) == Some(seq![0x1bu8]),
{
    reveal_strlit("\u{7f}");
    reveal_strlit("\t");
    reveal_strlit("\r");
    reveal_strlit("\u{1b}");
    reveal_strlit("\u{1b}[Z");
    lemma_ascii_bytes("\u{7f}"@, seq![0x7fu8]);
    lemma_ascii_bytes("\t"@, seq![0x09u8]);
    lemma_ascii_bytes("\r"@, seq![0x0du8]);
    lemma_ascii_bytes("\u{1b}"@, seq![0x1bu8]);
    lemma_ascii_bytes("\u{1b}[Z"@, seq![0x1bu8, 0x5b, 0x5a]);
}

/// Whether a character stands for one of the keys that send a sequence beginning with ESC,
/// Backtab aside.
pub open spec fn is_sequence_key(c: char) -> bool {
    ||| c == '\u{7f}'
    ||| '\u{f700}' <= c && c <= '\u{f70f}'
    ||| c == '\u{f727}'
    ||| c == '\u{f729}'
    ||| '\u{f72b}' <= c && c <= '\u{f72d}'
}

/// The key that sends some bytes.
spec fn key_sending(b: Seq<u8>) -> char {
    if b.len() == 3 && b[1] == 0x5b && b[2] == 0x41 {
        '\u{f700}'
    } else if b.len() == 3 && b[1] == 0x5b && b[2] == 0x42 {
        '\u{f701}'
    } else if b.len() == 3 && b[1] == 0x5b && b[2] == 0x44 {
        '\u{f702}'
    } else if b.len() == 3 && b[1] == 0x5b && b[2] == 0x43 {
        '\u{f703}'
    } else if b.len() == 3 && b[1] == 0x4f && b[2] == 0x50 {
        '\u{f704}'
    } else if b.len() == 3 && b[1] == 0x4f && b[2] == 0x51 {
        '\u{f705}'
    } else if b.len() == 3 && b[1] == 0x4f && b[2] == 0x52 {
        '\u{f706}'
    } else if b.len() == 3 && b[1] == 0x4f && b[2] == 0x53 {
        '\u{f707}'
    } else if b.len() == 5 && b[1] == 0x5b && b[2] == 0x31 && b[3] == 0x35 && b[4] == 0x7e {
        '\u{f708}'
    } else if b.len() == 5 && b[1] == 0x5b && b[2] == 0x31 && b[3] == 0x37 && b[4] == 0x7e {
        '\u{f709}'
    } else if b.len() == 5 && b[1] == 0x5b && b[2] == 0x31 && b[3] == 0x38 && b[4] == 0x7e {
        '\u{f70a}'
    } else if b.len() == 5 && b[1] == 0x5b && b[2] == 0x31 && b[3] == 0x39 && b[4] == 0x7e {
        '\u{f70b}'
    } else if b.len() == 5 && b[1] == 0x5b && b[2] == 0x32 && b[3] == 0x30 && b[4] == 0x7e {
        '\u{f70c}'
    } else if b.len() == 5 && b[1] == 0x5b && b[2] == 0x32 && b[3] == 0x31 && b[4] == 0x7e {
        '\u{f70d}'
    } else if b.len() == 5 && b[1] == 0x5b && b[2] == 0x32 && b[3] == 0x33 && b[4] == 0x7e {
        '\u{f70e}'
    } else if b.len() == 5 && b[1] == 0x5b && b[2] == 0x32 && b[3] == 0x34 && b[4] == 0x7e {
        '\u{f70f}'
    } else if b.len() == 4 && b[1] == 0x5b && b[2] == 0x32 && b[3] == 0x7e {
        '\u{f727}'
    } else if b.len() == 4 && b[1] == 0x5b && b[2] == 0x33 && b[3] == 0x7e {
        '\u{7f}'
    } else if b.len() == 3 && b[1] == 0x5b && b[2] == 0x48 {
        '\u{f729}'
    } else if b.len() == 3 && b[1] == 0x5b && b[2] == 0x46 {
        '\u{f72b}'
    } else if b.len() == 4 && b[1] == 0x5b && b[2] == 0x35 && b[3] == 0x7e {
        '\u{f72c}'
    } else if b.len() == 4 && b[1] == 0x5b && b[2] == 0x36 && b[3] == 0x7e {
        '\u{f72d}'
    } else {
        '\0'
    }
}

/// Every such key sends something, beginning with ESC, and no two of them the same.
pub proof fn law_keys_are_told_apart(s: Seq<char>, r: Seq<char>, shift: bool)
    requires
        s.len() > 0,
        r.len() > 0,
        is_sequence_key(s[0]),
        is_sequence_key(r[0]),
    ensures
        key_bytes(s, false, shift) matches Some(b) && b.len() >= 3 && b[0] == 0x1b,
        key_bytes(s, false, shift) == key_bytes(r, false, shift) ==> s[0] == r[0],
{
    lemma_key_sending(s, shift);
    lemma_key_sending(r, shift);
}

proof fn lemma_key_sending(s: Seq<char>, shift: bool)
    requires
        s.len() > 0,
        is_sequence_key(s[0]),
    ensures
        key_bytes(s, false, shift) matches Some(b) && b.len() >= 3 && b[0] == 0x1b && key_sending(b)
            == s[0],
{
    law_arrows_and_navigation_keys(s, shift);
    law_function_keys(s, shift);
}

/// Function keys and keys for moving around that have no meaning here send nothing.
pub proof fn law_other_function_keys_send_nothing(s: Seq<char>, ctrl: bool, shift: bool)
    requires
        s.len() > 0,
        '\u{f700}' <= s[0] && s[0] <= '\u{f7ff}',
        !is_sequence_key(s[0]),
    ensures
        key_bytes(s, ctrl, shift) is None,
{
}

/// With Control held a letter sends its place in the alphabet, in either case, a control
/// character sends itself, and nothing else is sent.
pub proof fn law_control_keys(s: Seq<char>, shift: bool)
    requires
        s.len() > 0,
    ensures
        s.len() == 1 && 'a' <= s[0] && s[0] <= 'z' ==> key_bytes(s, true, shift) == Some(
            seq![(s[0] as int - 'a' as int + 1) as u8],
        ),
        s.len() == 1 && 'A' <= s[0] && s[0] <= 'Z' ==> key_bytes(s, true, shift) == Some(
            seq![(s[0] as int - 'A' as int + 1) as u8],
        ),
        s.len() == 1 && s[0] < '\u{10}' ==> key_bytes(s, true, shift) == Some(seq![s[0] as u8]),
        s.len() == 1 && '\u{18}' < s[0] && s[0] < '\u{20}' ==> key_bytes(s, true, shift) == Some(
            seq![s[0] as u8],
        ),
        s.len() > 1 || (s[0] >= '\u{20}' && !('a' <= s[0] && s[0] <= 'z') && !('A' <= s[0] && s[0]
            <= 'Z')) ==> key_bytes(s, true, shift) is None,
{
}

/// A button of the toolbar sends what the keys that it is named after send.
pub proof fn law_buttons_send_what_keys_send(shift: bool)
    ensures
        button_bytes("ctrl-c"@) == key_bytes(seq!['c'], true, shift),
        button_bytes("ctrl-d"@) == key_bytes(seq!['d'], true, shift),
        button_bytes("ctrl-z"@) == key_bytes(seq!['z'], true, shift),
        button_bytes("ctrl-l"@) == key_bytes(seq!['l'], true, shift),
        button_bytes("tab"@) == key_bytes(seq!['\u{9}'], false, false),
        button_bytes("esc"@) == key_bytes(seq!['\u{1b}'], false, shift),
        button_bytes("enter"@) == key_bytes(seq!['\u{a}'], false, shift),
{
    reveal_strlit("ctrl-c");
    reveal_strlit("ctrl-d");
    reveal_strlit("ctrl-z");
    reveal_strlit("ctrl-l");
    reveal_strlit("tab");
    reveal_strlit("esc");
    reveal_strlit("enter");
    assert("ctrl-c"@[5] == 'c' && "ctrl-d"@[5] == 'd' && "ctrl-z"@[5] == 'z' && "ctrl-l"@[5]
        == 'l');
    assert("tab"@[0] == 't' && "esc"@[0] == 'e' && "enter"@[0] == 'e' && "ctrl-c"@[0] == 'c'
        && "ctrl-d"@[0] == 'c' && "ctrl-z"@[0] == 'c' && "ctrl-l"@[0] == 'c');
    assert("esc"@.len() != "enter"@.len());
    law_control_keys(seq!['c'], shift);
    law_control_keys(seq!['d'], shift);
    law_control_keys(seq!['z'], shift);
    law_control_keys(seq!['l'], shift);
    law_editing_keys(seq!['\u{9}'], false);
    law_editing_keys(seq!['\u{1b}'], shift);
    law_editing_keys(seq!['\u{a}'], shift);
}

/// Replacing in a text whose parts do not make up an occurrence together.
proof fn lemma_replaced_concat(a: Seq<char>, b: Seq<char>, from: Seq<char>, to: Seq<char>)
    requires
        from.len() > 0,
        forall|i: int|
            0 <= i < a.len() && i + from.len() > a.len() ==> !(#[trigger] text::occurs_at(
                a + b,
                from,
                i,
            )),
    ensures
        text::replaced(a + b, from, to) == text::replaced(a, from, to) + text::replaced(
            b,
            from,
            to,
        ),
    decreases a.len(),
{
    let s = a + b;
    let n = from.len() as int;
    let rb = text::replaced(b, from, to);
    if a.len() == 0 {
        assert(s =~= b);
        assert(text::replaced(a, from, to) + rb =~= rb);
    } else if a.len() < n {
        // No occurrence begins in `a`.
        assert(!text::occurs_at(s, from, 0));
        lemma_replaced_tail(a, b, from);
        lemma_replaced_concat(a.skip(1), b, from, to);
        assert(s.skip(1) =~= a.skip(1) + b);
        assert(text::replaced(a.skip(1), from, to) == a.skip(1));
        if s.len() >= n {
            assert(s.subrange(0, n) =~= s.take(n));
            assert(seq![s[0]] + (a.skip(1) + rb) =~= a + rb);
        } else {
            assert(text::replaced(a.skip(1) + b, from, to) == a.skip(1) + b);
            assert(rb == b);
        }
    } else {
        assert(s.take(n) =~= a.take(n));
        if a.take(n) == from {
            lemma_replaced_tail_by(a, b, from, n);
            lemma_replaced_concat(a.skip(n), b, from, to);
            assert(s.skip(n) =~= a.skip(n) + b);
            let ra = text::replaced(a.skip(n), from, to);
            assert(to + (ra + rb) =~= (to + ra) + rb);
        } else {
            lemma_replaced_tail(a, b, from);
            lemma_replaced_concat(a.skip(1), b, from, to);
            assert(s.skip(1) =~= a.skip(1) + b);
            let ra = text::replaced(a.skip(1), from, to);
            assert(seq![a[0]] + (ra + rb) =~= (seq![a[0]] + ra) + rb);
        }
    }
}

proof fn lemma_replaced_tail(a: Seq<char>, b: Seq<char>, from: Seq<char>)
    requires
        a.len() > 0,
        from.len() > 0,
        forall|i: int|
            0 <= i < a.len() && i + from.len() > a.len() ==> !(#[trigger] text::occurs_at(
                a + b,
                from,
                i,
            )),
    ensures
        forall|i: int|
            0 <= i < a.len() - 1 && i + from.len() > a.len() - 1 ==> !(#[trigger] text::occurs_at(
                a.skip(1) + b,
                from,
                i,
            )),
{
    lemma_replaced_tail_by(a, b, from, 1);
}

proof fn lemma_replaced_tail_by(a: Seq<char>, b: Seq<char>, from: Seq<char>, k: int)
    requires
        0 < k <= a.len(),
        from.len() > 0,
        forall|i: int|
            0 <= i < a.len() && i + from.len() > a.len() ==> !(#[trigger] text::occurs_at(
                a + b,
                from,
                i,
            )),
    ensures
        forall|i: int|
            0 <= i < a.len() - k && i + from.len() > a.len() - k ==> !(#[trigger] text::occurs_at(
                a.skip(k) + b,
                from,
                i,
            )),
{
    assert((a + b).skip(k) =~= a.skip(k) + b);
    assert forall|i: int| 0 <= i < a.len() - k && i + from.len() > a.len() - k implies !(
    #[trigger] text::occurs_at(a.skip(k) + b, from, i)) by {
        assert(!text::occurs_at(a + b, from, i + k));
        if text::occurs_at(a.skip(k) + b, from, i) {
            assert((a + b).subrange(i + k, i + k + from.len()) =~= (a.skip(k) + b).subrange(
                i,
                i + from.len(),
            ));
        }
    }
}

/// Whether a pasted text can be cut in two here: not within a CRLF.
pub open spec fn cuts(a: Seq<char>, b: Seq<char>) -> bool {
    !(a.len() > 0 && b.len() > 0 && a.last() == '\r' && b[0] == '\n')
}

/// What is pasted in two pieces is what is pasted at once, unless a CRLF is cut.
pub proof fn law_paste_in_pieces(a: Seq<char>, b: Seq<char>)
    requires
        cuts(a, b),
    ensures
        pasted(a + b) == pasted(a) + pasted(b),
{
    reveal_strlit("\r\n");
    reveal_strlit("\r");
    reveal_strlit("\n");
    let crlf = "\r\n"@;
    assert forall|i: int| 0 <= i < a.len() && i + crlf.len() > a.len() implies !(
    #[trigger] text::occurs_at(a + b, crlf, i)) by {
        if text::occurs_at(a + b, crlf, i) {
            let o = (a + b).subrange(i, i + 2);
            assert(o[0] == crlf[0] && o[1] == crlf[1]);
            assert((a + b)[i] == '\r' && (a + b)[i + 1] == '\n');
        }
    }
    lemma_replaced_concat(a, b, crlf, "\n"@);
    let (a1, b1) = (text::replaced(a, crlf, "\n"@), text::replaced(b, crlf, "\n"@));
    lemma_replaced_concat(a1, b1, "\r"@, "\n"@);
    let (a2, b2) = (text::replaced(a1, "\r"@, "\n"@), text::replaced(b1, "\r"@, "\n"@));
    lemma_replaced_concat(a2, b2, "\n"@, "\r"@);
}

/// Every line end, be it CRLF, LF or CR, is pasted as one CR.
pub proof fn law_line_ends_are_pasted_as_cr(a: Seq<char>, b: Seq<char>)
    ensures
        pasted(a + seq!['\r', '\n'] + b) == pasted(a) + seq!['\r'] + pasted(b),
        cuts(a, seq!['\n']) ==> pasted(a + seq!['\n'] + b) == pasted(a) + seq!['\r'] + pasted(b),
        cuts(seq!['\r'], b) ==> pasted(a + seq!['\r'] + b) == pasted(a) + seq!['\r'] + pasted(b),
{
    lemma_pasted_ends();
    law_paste_in_pieces(a, seq!['\r', '\n']);
    law_paste_in_pieces(a + seq!['\r', '\n'], b);
    if cuts(a, seq!['\n']) {
        law_paste_in_pieces(a, seq!['\n']);
        law_paste_in_pieces(a + seq!['\n'], b);
    }
    if cuts(seq!['\r'], b) {
        law_paste_in_pieces(a, seq!['\r']);
        law_paste_in_pieces(a + seq!['\r'], b);
    }
}

proof fn lemma_pasted_ends()
    ensures
        pasted(seq!['\r', '\n']) == seq!['\r'],
        pasted(seq!['\n']) == seq!['\r'],
        pasted(seq!['\r']) == seq!['\r'],
{
    reveal_strlit("\r\n");
    reveal_strlit("\r");
    reveal_strlit("\n");
    let crlf = seq!['\r', '\n'];
    assert("\r\n"@ =~= crlf);
    assert("\r"@ =~= seq!['\r']);
    assert("\n"@ =~= seq!['\n']);
    assert(crlf.take(2) =~= crlf);
    assert(crlf.skip(2) =~= Seq::empty());
    assert(text::replaced(crlf.skip(2), crlf, seq!['\n']) =~= Seq::<char>::empty());
    assert(seq!['\n'] + Seq::<char>::empty() =~= seq!['\n']);
    assert(text::replaced(crlf, crlf, seq!['\n']) == seq!['\n']);
    assert(text::replaced(seq!['\n'], crlf, seq!['\n']) == seq!['\n']);
    assert(text::replaced(seq!['\r'], crlf, seq!['\n']) == seq!['\r']);
    lemma_replaced_char(seq!['\n'], '\r', '\n');
    lemma_replaced_char(seq!['\r'], '\r', '\n');
    lemma_replaced_char(seq!['\n'], '\n', '\r');
    assert(text::replaced(seq!['\n'], seq!['\r'], seq!['\n']) =~= seq!['\n']);
    assert(text::replaced(seq!['\r'], seq!['\r'], seq!['\n']) =~= seq!['\n']);
    assert(text::replaced(seq!['\n'], seq!['\n'], seq!['\r']) =~= seq!['\r']);
}

/// Control characters that stand for no key are sent as they are, where no Control is held.
pub proof fn law_other_control_characters(s: Seq<char>, shift: bool)
    requires
        s.len() > 0,
        s[0] < '\u{20}',
        s[0] != '\u{8}' && s[0] != '\u{9}' && s[0] != '\u{a}' && s[0] != '\u{1b}',
        !('\u{10}' <= s[0] && s[0] <= '\u{19}'),
    ensures
        key_bytes(s, false, shift) == Some(encode_utf8(s)),
{
}

/// There are no other buttons.
pub proof fn law_other_buttons_send_nothing(name: Seq<char>)
    requires
        name != "ctrl-c"@ && name != "ctrl-d"@ && name != "ctrl-z"@ && name != "ctrl-l"@ && name
            != "tab"@ && name != "esc"@ && name != "enter"@,
    ensures
        button_bytes(name) is None,
{
}

/// An event without a text sends nothing.
pub proof fn law_empty_events_send_nothing(ctrl: bool, shift: bool)
    ensures
        key_bytes(Seq::empty(), ctrl, shift) is None,
{
}

} // verus!
