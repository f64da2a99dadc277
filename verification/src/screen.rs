//! The mathematical model of the terminal: what a screen is, and what each
//! control function does to it.
//!
//! A row is a sequence of characters; the columns behind its end are blank. The
//! screen always holds `height` rows, and rows that scroll off its top go to the
//! scrollback.

use vstd::prelude::*;
use vstd::utf8::*;

use crate::text;

verus! {

/// How many rows the scrollback and the screen keep together.
pub const MAX_ROWS: usize = 4000;

/// How many lines a rendering holds at most.
pub const RENDER_ROWS: usize = 1500;

/// What the terminal expects of the next character.
#[derive(Clone, Copy, PartialEq, Eq, Structural)]
pub enum State {
    /// Text and control characters.
    Ground,
    /// The character behind an ESC.
    Esc,
    /// Parameters or the final byte of a control sequence.
    Csi,
    /// An operating system command.
    Osc,
    /// The designator of a character set.
    Charset,
}

/// A terminal, as its specifications see it.
#[verifier::ext_equal]
pub struct Screen {
    pub rows: Seq<Seq<char>>,
    pub scrollback: Seq<Seq<char>>,
    pub row: int,
    pub col: int,
    pub cols: int,
    pub height: int,
    pub state: State,
    pub params: Seq<char>,
    pub osc: Seq<char>,
    pub pending: Seq<u8>,
}

/// `n` empty rows.
pub open spec fn empty_rows(n: int) -> Seq<Seq<char>> {
    Seq::new(n as nat, |i: int| Seq::<char>::empty())
}

/// `n` blanks.
pub open spec fn blanks(n: int) -> Seq<char> {
    Seq::new(n as nat, |i: int| ' ')
}

/// The last `n` elements of a sequence, or all of it where it is shorter.
pub open spec fn keep_last<T>(s: Seq<T>, n: int) -> Seq<T> {
    if s.len() > n {
        s.skip(s.len() - n)
    } else {
        s
    }
}

/// How many rows the scrollback of a screen of this height keeps. The screen itself is
/// always complete.
pub open spec fn scrollback_limit(height: int) -> int {
    most(MAX_ROWS - height, 0)
}

/// The nearest number to `x` between `lo` and `hi`.
pub open spec fn clamped(x: int, lo: int, hi: int) -> int {
    if x < lo {
        lo
    } else if x > hi {
        hi
    } else {
        x
    }
}

/// The smaller of two numbers.
pub open spec fn least(a: int, b: int) -> int {
    if a < b {
        a
    } else {
        b
    }
}

/// The larger of two numbers.
pub open spec fn most(a: int, b: int) -> int {
    if a > b {
        a
    } else {
        b
    }
}

/// The numbers among the parts of a parameter string; other parts are skipped.
pub open spec fn numbers_among(parts: Seq<Seq<char>>) -> Seq<int>
    decreases parts.len(),
{
    if parts.len() == 0 {
        Seq::empty()
    } else {
        let front = numbers_among(parts.drop_last());
        match text::parsed_int(parts.last(), i64::MIN as int, i64::MAX as int) {
            Some(v) => front.push(v),
            None => front,
        }
    }
}

/// The numbers of a parameter string, separated by `;` or `:`.
pub open spec fn param_numbers(params: Seq<char>) -> Seq<int> {
    numbers_among(text::split_parts(params, ';', ':'))
}

/// The parameter number `idx`, or `default` where there is none; never negative.
pub open spec fn param_of(params: Seq<char>, idx: int, default: int) -> int {
    let list = param_numbers(params);
    most(
        0,
        if idx < list.len() {
            list[idx]
        } else {
            default
        },
    )
}

impl Screen {
    /// What holds of every terminal: the screen is complete, the cursor stands in
    /// one of its rows, the scrollback is within its limit, and no whole character is
    /// held back.
    pub open spec fn valid(self) -> bool {
        &&& 1 <= self.height <= isize::MAX
        &&& self.rows.len() == self.height
        &&& 0 <= self.row < self.height
        &&& 0 <= self.col <= usize::MAX
        &&& 0 <= self.cols <= usize::MAX
        &&& self.scrollback.len() <= scrollback_limit(self.height)
        &&& incomplete(self.pending)
    }

    /// A blank terminal.
    pub open spec fn blank(cols: int, height: int) -> Screen {
        Screen {
            rows: empty_rows(height),
            scrollback: Seq::empty(),
            row: 0,
            col: 0,
            cols,
            height,
            state: State::Ground,
            params: Seq::empty(),
            osc: Seq::empty(),
            pending: Seq::empty(),
        }
    }

    /// The last column.
    pub open spec fn last_col(self) -> int {
        most(self.cols - 1, 0)
    }

    /// The row under the cursor.
    pub open spec fn current(self) -> Seq<char> {
        self.rows[self.row]
    }

    /// The same terminal with another row under the cursor.
    pub open spec fn with_current(self, r: Seq<char>) -> Screen {
        Screen { rows: self.rows.update(self.row, r), ..self }
    }

    /// The same terminal in another state.
    pub open spec fn in_state(self, state: State) -> Screen {
        Screen { state, ..self }
    }

    // ---- cursor ----

    /// The cursor goes down one row; at the bottom the screen scrolls instead, and
    /// its top row goes to the scrollback.
    pub open spec fn line_feed(self) -> Screen {
        if self.row + 1 >= self.height {
            Screen {
                scrollback: keep_last(
                    self.scrollback.push(self.rows[0]),
                    scrollback_limit(self.height),
                ),
                rows: self.rows.skip(1).push(Seq::empty()),
                row: self.height - 1,
                ..self
            }
        } else {
            Screen { row: self.row + 1, ..self }
        }
    }

    /// The cursor goes up one row; at the top the screen scrolls down instead, and
    /// its bottom row is lost.
    pub open spec fn reverse_index(self) -> Screen {
        if self.row == 0 {
            Screen { rows: seq![Seq::<char>::empty()] + self.rows.drop_last(), ..self }
        } else {
            Screen { row: self.row - 1, ..self }
        }
    }

    pub open spec fn carriage_return(self) -> Screen {
        Screen { col: 0, ..self }
    }

    pub open spec fn backspace(self) -> Screen {
        Screen { col: most(self.col - 1, 0), ..self }
    }

    /// Moves the cursor by a distance, but not off the screen.
    pub open spec fn move_by(self, dcol: int, drow: int) -> Screen {
        Screen {
            col: clamped(self.col + dcol, 0, self.last_col()),
            row: clamped(self.row + drow, 0, self.height - 1),
            ..self
        }
    }

    /// Moves the cursor to a column, counted from one.
    pub open spec fn to_col(self, n: int) -> Screen {
        Screen { col: clamped(n - 1, 0, self.last_col()), ..self }
    }

    /// Moves the cursor to a row, counted from one.
    pub open spec fn to_row(self, n: int) -> Screen {
        Screen { row: clamped(n - 1, 0, self.height - 1), ..self }
    }

    // ---- text ----

    /// Writes a character at the cursor, which goes one column to the right. From
    /// behind the last column the cursor first goes to the next line.
    pub open spec fn put(self, c: char) -> Screen {
        let t = if self.col >= self.cols {
            self.carriage_return().line_feed()
        } else {
            self
        };
        let r = t.current();
        let padded = r + blanks(most(t.col + 1 - r.len(), 0));
        Screen { col: t.col + 1, ..t.with_current(padded.update(t.col, c)) }
    }

    /// Writes `n` blanks.
    pub open spec fn put_blanks(self, n: int) -> Screen
        decreases n,
    {
        if n <= 0 {
            self
        } else {
            self.put_blanks(n - 1).put(' ')
        }
    }

    /// Writes blanks up to the next multiple of eight, or up to the right edge where
    /// that is nearer.
    pub open spec fn tab(self) -> Screen {
        self.put_blanks(least(8 - self.col % 8, most(self.cols - self.col, 0)))
    }

    // ---- erasing, inserting, deleting ----

    /// Erases the row under the cursor: from the cursor on, up to the cursor, or all
    /// of it.
    pub open spec fn erase_line(self, mode: int) -> Screen {
        let r = self.current();
        if mode == 0 {
            self.with_current(
                Seq::new(
                    r.len(),
                    |i: int|
                        if i >= self.col {
                            ' '
                        } else {
                            r[i]
                        },
                ),
            )
        } else if mode == 1 {
            self.with_current(
                Seq::new(
                    r.len(),
                    |i: int|
                        if i <= self.col {
                            ' '
                        } else {
                            r[i]
                        },
                ),
            )
        } else if mode == 2 {
            self.with_current(Seq::empty())
        } else {
            self
        }
    }

    /// Erases the screen: from the cursor on, up to the cursor, or all of it. The
    /// last of these also takes the cursor home.
    pub open spec fn erase_display(self, mode: int) -> Screen {
        if mode == 0 {
            let t = self.erase_line(0);
            Screen {
                rows: Seq::new(
                    t.rows.len(),
                    |i: int|
                        if i > self.row {
                            Seq::empty()
                        } else {
                            t.rows[i]
                        },
                ),
                ..t
            }
        } else if mode == 1 {
            let t = self.erase_line(1);
            Screen {
                rows: Seq::new(
                    t.rows.len(),
                    |i: int|
                        if i < self.row {
                            Seq::empty()
                        } else {
                            t.rows[i]
                        },
                ),
                ..t
            }
        } else if mode == 2 || mode == 3 {
            Screen { rows: empty_rows(self.height), row: 0, col: 0, ..self }
        } else {
            self
        }
    }

    /// Deletes `n` characters at the cursor; the rest of the row moves left.
    pub open spec fn delete_chars(self, n: int) -> Screen {
        let r = self.current();
        if self.col < r.len() {
            self.with_current(r.take(self.col) + r.skip(least(self.col + n, r.len() as int)))
        } else {
            self
        }
    }

    /// Inserts `n` blanks at the cursor; the rest of the row moves right. Behind the
    /// end of the row all columns are blank already.
    pub open spec fn insert_chars(self, n: int) -> Screen {
        let r = self.current();
        if self.col <= r.len() {
            self.with_current(r.take(self.col) + blanks(n) + r.skip(self.col))
        } else {
            self
        }
    }

    /// Inserts `n` empty rows at the cursor; rows pushed off the bottom are lost.
    pub open spec fn insert_lines(self, n: int) -> Screen {
        let k = least(n, self.height - self.row);
        Screen {
            rows: self.rows.take(self.row) + empty_rows(k) + self.rows.subrange(
                self.row,
                self.height - k,
            ),
            ..self
        }
    }

    /// Deletes `n` rows at the cursor; empty rows come in at the bottom.
    pub open spec fn delete_lines(self, n: int) -> Screen {
        let k = least(n, self.height - self.row);
        Screen {
            rows: self.rows.take(self.row) + self.rows.skip(self.row + k) + empty_rows(k),
            ..self
        }
    }

    /// Empties the screen and the scrollback and takes the cursor home.
    pub open spec fn reset(self) -> Screen {
        Screen {
            rows: empty_rows(self.height),
            scrollback: Seq::empty(),
            row: 0,
            col: 0,
            ..self
        }
    }

    /// Gives the screen another size. Rows that do not fit any more leave at the top
    /// for the scrollback; missing rows come in empty at the bottom.
    pub open spec fn resize(self, cols: int, height: int) -> Screen {
        let h = most(height, 1);
        let surplus = most(self.rows.len() - h, 0);
        Screen {
            cols: most(cols, 1),
            height: h,
            rows: self.rows.skip(surplus) + empty_rows(most(h - self.rows.len(), 0)),
            scrollback: keep_last(
                self.scrollback + self.rows.take(surplus),
                scrollback_limit(h),
            ),
            row: clamped(self.row - surplus, 0, h - 1),
            ..self
        }
    }

    // ---- control functions ----

    /// One character of text, or a control character.
    pub open spec fn ground(self, c: char) -> Screen {
        if c == '\u{1b}' {
            self.in_state(State::Esc)
        } else if c == '\u{07}' || c == '\0' {
            self
        } else if c == '\u{08}' {
            self.backspace()
        } else if c == '\t' {
            self.tab()
        } else if c == '\n' || c == '\u{0b}' || c == '\u{0c}' {
            self.line_feed()
        } else if c == '\r' {
            self.carriage_return()
        } else {
            self.put(c)
        }
    }

    /// The character behind an ESC.
    pub open spec fn esc(self, c: char) -> Screen {
        if c == '[' {
            Screen { params: Seq::empty(), state: State::Csi, ..self }
        } else if c == ']' {
            Screen { osc: Seq::empty(), state: State::Osc, ..self }
        } else if c == '(' || c == ')' || c == '*' || c == '+' {
            self.in_state(State::Charset)
        } else if c == 'D' {
            self.line_feed().in_state(State::Ground)
        } else if c == 'E' {
            self.carriage_return().line_feed().in_state(State::Ground)
        } else if c == 'M' {
            self.reverse_index().in_state(State::Ground)
        } else if c == 'c' {
            self.reset().in_state(State::Ground)
        } else {
            self.in_state(State::Ground)
        }
    }

    /// A parameter of a control sequence, or its final byte.
    pub open spec fn csi(self, c: char) -> Screen {
        if '\u{20}' <= c && c <= '\u{3f}' {
            Screen { params: self.params.push(c), ..self }
        } else {
            let t = if '\u{40}' <= c && c <= '\u{7e}' {
                self.csi_dispatch(c)
            } else {
                self
            };
            Screen { state: State::Ground, params: Seq::empty(), ..t }
        }
    }

    /// A character of an operating system command, which BEL or an ESC ends.
    pub open spec fn osc(self, c: char) -> Screen {
        if c == '\u{07}' {
            Screen { state: State::Ground, osc: Seq::empty(), ..self }
        } else if c == '\u{1b}' {
            Screen { state: State::Esc, osc: Seq::empty(), ..self }
        } else {
            Screen { osc: self.osc.push(c), ..self }
        }
    }

    /// Parameter number `idx` of the control sequence that is being read.
    pub open spec fn param(self, idx: int, default: int) -> int {
        param_of(self.params, idx, default)
    }

    /// Performs a control sequence.
    pub open spec fn csi_dispatch(self, c: char) -> Screen {
        let n = self.param(0, 1);
        let count = least(n, usize::MAX as int);
        let mode = self.param(0, 0) % 256;
        let private = self.params.len() > 0 && self.params[0] == '?';
        if c == 'A' {
            self.move_by(0, -n)
        } else if c == 'B' {
            self.move_by(0, n)
        } else if c == 'C' {
            self.move_by(n, 0)
        } else if c == 'D' {
            self.move_by(-n, 0)
        } else if c == 'E' {
            self.carriage_return().move_by(0, n)
        } else if c == 'F' {
            self.carriage_return().move_by(0, -n)
        } else if c == 'G' {
            self.to_col(n)
        } else if c == 'd' {
            self.to_row(n)
        } else if c == 'H' || c == 'f' {
            self.to_row(n).to_col(self.param(1, 1))
        } else if c == 'J' && !private {
            self.erase_display(mode)
        } else if c == 'K' && !private {
            self.erase_line(mode)
        } else if c == 'P' {
            self.delete_chars(count)
        } else if c == '@' {
            self.insert_chars(count)
        } else if c == 'L' {
            self.insert_lines(count)
        } else if c == 'M' {
            self.delete_lines(count)
        } else {
            self
        }
    }

    /// What one character does.
    pub open spec fn feed_char(self, c: char) -> Screen {
        match self.state {
            State::Ground => self.ground(c),
            State::Esc => self.esc(c),
            State::Csi => self.csi(c),
            State::Osc => self.osc(c),
            State::Charset => self.in_state(State::Ground),
        }
    }

    /// What a sequence of characters does.
    pub open spec fn feed_chars(self, s: Seq<char>) -> Screen
        decreases s.len(),
    {
        if s.len() == 0 {
            self
        } else {
            self.feed_chars(s.drop_last()).feed_char(s.last())
        }
    }

    /// What a sequence of bytes does: the characters in the bytes held back so far
    /// and the new ones are performed, and an incomplete character at the end is held
    /// back.
    pub open spec fn feed(self, data: Seq<u8>) -> Screen {
        let bytes = self.pending + data;
        let t = Screen { pending: Seq::empty(), ..self }.feed_chars(decoded(bytes));
        Screen { pending: undecoded(bytes), ..t }
    }

    // ---- rendering ----

    /// All lines: the scrollback, then the screen.
    pub open spec fn lines(self) -> Seq<Seq<char>> {
        self.scrollback + self.rows
    }

    /// The text of the terminal.
    pub open spec fn render(self) -> Seq<char> {
        join_lines(keep_last(without_trailing_blanks(self.lines()), RENDER_ROWS as int))
    }
}

// ---------------------------------------------------------------------------
// UTF-8
// ---------------------------------------------------------------------------

/// How many bytes a character takes, by its first byte; zero for a byte that begins
/// no character.
pub open spec fn utf8_width(b: u8) -> int {
    if is_leading_byte_width_1(b) {
        1
    } else if is_leading_byte_width_2(b) {
        2
    } else if is_leading_byte_width_3(b) {
        3
    } else if is_leading_byte_width_4(b) {
        4
    } else {
        0
    }
}

/// What the bytes of one malformed character stand for.
pub const REPLACEMENT: char = '\u{FFFD}';

/// How many bytes are decoded together, by the first of them.
pub open spec fn unit_len(b: u8) -> int {
    if utf8_width(b) == 0 {
        1
    } else {
        utf8_width(b)
    }
}

/// The characters of bytes that are decoded together: a replacement character where
/// they are malformed.
pub open spec fn unit_text(bytes: Seq<u8>) -> Seq<char> {
    if valid_utf8(bytes) {
        decode_utf8(bytes)
    } else {
        seq![REPLACEMENT]
    }
}

/// Whether `bytes` are the beginning of a character and no more.
pub open spec fn incomplete(bytes: Seq<u8>) -> bool {
    bytes.len() == 0 || unit_len(bytes[0]) > bytes.len()
}

/// The characters that `bytes` holds completely. A byte that begins no character, and
/// a malformed character, give a replacement character.
pub open spec fn decoded(bytes: Seq<u8>) -> Seq<char>
    decreases bytes.len(),
{
    if incomplete(bytes) {
        Seq::empty()
    } else {
        let n = unit_len(bytes[0]);
        unit_text(bytes.take(n)) + decoded(bytes.skip(n))
    }
}

/// The incomplete character at the end of `bytes`.
pub open spec fn undecoded(bytes: Seq<u8>) -> Seq<u8>
    decreases bytes.len(),
{
    if incomplete(bytes) {
        bytes
    } else {
        undecoded(bytes.skip(unit_len(bytes[0])))
    }
}

// ---------------------------------------------------------------------------
// Lines
// ---------------------------------------------------------------------------

/// Whether a row shows nothing.
pub open spec fn is_blank(r: Seq<char>) -> bool {
    forall|i: int| 0 <= i < r.len() ==> #[trigger] r[i] == ' '
}

/// The lines up to the last one that shows something.
pub open spec fn without_trailing_blanks(lines: Seq<Seq<char>>) -> Seq<Seq<char>>
    decreases lines.len(),
{
    if lines.len() > 0 && is_blank(lines.last()) {
        without_trailing_blanks(lines.drop_last())
    } else {
        lines
    }
}

/// The lines without their trailing white space, with a line break between them.
pub open spec fn join_lines(lines: Seq<Seq<char>>) -> Seq<char>
    decreases lines.len(),
{
    if lines.len() == 0 {
        Seq::empty()
    } else if lines.len() == 1 {
        text::trimmed_end(lines[0])
    } else {
        join_lines(lines.drop_last()).push('\n') + text::trimmed_end(lines.last())
    }
}

// ---------------------------------------------------------------------------
// Laws
// ---------------------------------------------------------------------------

/// Feeding one more character.
pub proof fn lemma_feed_one(t: Screen, s: Seq<char>, c: char)
    ensures
        t.feed_chars(s.push(c)) == t.feed_chars(s).feed_char(c),
{
    assert(s.push(c).drop_last() =~= s);
}

/// Feeding two texts one after the other is feeding their concatenation.
pub proof fn lemma_feed_chars_concat(t: Screen, a: Seq<char>, b: Seq<char>)
    ensures
        t.feed_chars(a + b) == t.feed_chars(a).feed_chars(b),
    decreases b.len(),
{
    if b.len() == 0 {
        assert(a + b =~= a);
    } else {
        assert((a + b).drop_last() =~= a + b.drop_last());
        lemma_feed_chars_concat(t, a, b.drop_last());
    }
}

/// Whether a terminal is valid, has the size of `t`, and has its cursor no further
/// right than behind the last column where that of `t` is so.
pub open spec fn sound_after(t: Screen, u: Screen) -> bool {
    &&& u.valid()
    &&& u.cols == t.cols
    &&& u.height == t.height
    &&& t.col <= most(t.cols, 1) ==> u.col <= most(u.cols, 1)
}

proof fn lemma_put_blanks_sound(t: Screen, n: int)
    requires
        t.valid(),
    ensures
        sound_after(t, t.put_blanks(n)),
    decreases n,
{
    if n > 0 {
        lemma_put_blanks_sound(t, n - 1);
    }
}

proof fn lemma_csi_dispatch_sound(t: Screen, c: char)
    requires
        t.valid(),
    ensures
        sound_after(t, t.csi_dispatch(c)),
{
}

proof fn lemma_feed_char_sound(t: Screen, c: char)
    requires
        t.valid(),
    ensures
        sound_after(t, t.feed_char(c)),
{
    match t.state {
        State::Ground => {
            if c == '\t' {
                lemma_put_blanks_sound(t, least(8 - t.col % 8, most(t.cols - t.col, 0)));
            }
        },
        State::Csi => {
            lemma_csi_dispatch_sound(t, c);
        },
        _ => {},
    }
}

proof fn lemma_feed_chars_sound(t: Screen, s: Seq<char>)
    requires
        t.valid(),
    ensures
        sound_after(t, t.feed_chars(s)),
    decreases s.len(),
{
    if s.len() > 0 {
        lemma_feed_chars_sound(t, s.drop_last());
        lemma_feed_char_sound(t.feed_chars(s.drop_last()), s.last());
    }
}

/// Whatever bytes arrive, the screen stays complete with the cursor on it, keeps its
/// size, and the scrollback stays within its limit.
pub proof fn law_feed_keeps_the_screen_sound(t: Screen, data: Seq<u8>)
    requires
        t.valid(),
    ensures
        sound_after(t, t.feed(data)),
{
    let bytes = t.pending + data;
    lemma_feed_chars_sound(Screen { pending: Seq::empty(), ..t }, decoded(bytes));
    lemma_undecoded_incomplete(bytes);
}

proof fn lemma_undecoded_incomplete(bytes: Seq<u8>)
    ensures
        incomplete(undecoded(bytes)),
    decreases bytes.len(),
{
    if !incomplete(bytes) {
        lemma_undecoded_incomplete(bytes.skip(unit_len(bytes[0])));
    }
}

/// No character touches the bytes that are held back.
pub proof fn lemma_pending_untouched(t: Screen, s: Seq<char>)
    ensures
        t.feed_chars(s).pending == t.pending,
    decreases s.len(),
{
    if s.len() > 0 {
        let u = t.feed_chars(s.drop_last());
        lemma_pending_untouched(t, s.drop_last());
        if u.state == State::Ground && s.last() == '\t' {
            lemma_put_blanks_pending(u, least(8 - u.col % 8, most(u.cols - u.col, 0)));
        }
    }
}

proof fn lemma_put_blanks_pending(t: Screen, n: int)
    ensures
        t.put_blanks(n).pending == t.pending,
    decreases n,
{
    if n > 0 {
        lemma_put_blanks_pending(t, n - 1);
    }
}

proof fn lemma_decoded_concat(a: Seq<u8>, b: Seq<u8>)
    ensures
        decoded(a + b) == decoded(a) + decoded(undecoded(a) + b),
        undecoded(a + b) == undecoded(undecoded(a) + b),
    decreases a.len(),
{
    if incomplete(a) {
        assert(decoded(a) + decoded(a + b) =~= decoded(a + b));
    } else {
        let n = unit_len(a[0]);
        let rest = a.skip(n);
        lemma_decoded_concat(rest, b);
        assert((a + b)[0] == a[0]);
        assert((a + b).take(n) =~= a.take(n));
        assert((a + b).skip(n) =~= rest + b);
        assert(decoded(a + b) =~= decoded(a) + decoded(undecoded(a) + b));
    }
}

/// How the bytes are cut into pieces makes no difference.
pub proof fn law_feed_in_pieces(t: Screen, a: Seq<u8>, b: Seq<u8>)
    ensures
        t.feed(a + b) == t.feed(a).feed(b),
{
    let start = Screen { pending: Seq::empty(), ..t };
    let first = t.pending + a;
    assert(t.pending + (a + b) =~= first + b);
    lemma_decoded_concat(first, b);
    let chars = decoded(undecoded(first) + b);
    lemma_feed_chars_concat(start, decoded(first), chars);
    lemma_pending_untouched(start, decoded(first));
    assert((Screen { pending: Seq::empty(), ..t.feed(a) }) =~= start.feed_chars(decoded(first)));
}

/// Where no bytes arrive, nothing changes.
pub proof fn law_feed_of_nothing_changes_nothing(t: Screen)
    requires
        t.valid(),
    ensures
        t.feed(Seq::empty()) == t,
{
    assert(t.pending + Seq::<u8>::empty() =~= t.pending);
    assert(decoded(t.pending) =~= Seq::empty());
    assert(undecoded(t.pending) == t.pending);
    assert(t.feed(Seq::empty()) =~= t);
}

proof fn lemma_decoded_valid(bytes: Seq<u8>)
    requires
        valid_utf8(bytes),
    ensures
        decoded(bytes) == decode_utf8(bytes),
        undecoded(bytes) == Seq::<u8>::empty(),
    decreases bytes.len(),
{
    if bytes.len() > 0 {
        let n = unit_len(bytes[0]);
        utf8_byte_ranges_bitwise(bytes[0]);
        assert(n == length_of_first_scalar(bytes));
        let one = bytes.take(n);
        assert(one =~= take_first_scalar(bytes));
        assert(one[0] == bytes[0]);
        assert(pop_first_scalar(one) =~= Seq::empty());
        assert(valid_first_scalar(one));
        assert(valid_utf8(pop_first_scalar(one)));
        assert(valid_utf8(one));
        assert(decode_utf8(pop_first_scalar(one)) =~= Seq::empty());
        assert(decode_utf8(one) =~= seq![decode_first_scalar(bytes) as char]);
        assert(bytes.skip(n) =~= pop_first_scalar(bytes));
        lemma_decoded_valid(bytes.skip(n));
    }
}

/// The encoding of a text has the effect of its characters.
pub proof fn law_feed_of_encoded_text(t: Screen, s: Seq<char>)
    requires
        t.pending.len() == 0,
    ensures
        t.feed(encode_utf8(s)) == t.feed_chars(s),
{
    encode_utf8_valid_utf8(s);
    encode_utf8_decode_utf8(s);
    lemma_decoded_valid(encode_utf8(s));
    assert(t.pending + encode_utf8(s) =~= encode_utf8(s));
    assert((Screen { pending: Seq::empty(), ..t }) =~= t);
    lemma_pending_untouched(t, s);
    assert(t.feed(encode_utf8(s)) =~= t.feed_chars(s));
}

/// A row that scrolls off the screen becomes the last line of the scrollback; no other
/// line changes, but for the oldest one, which is dropped once there are too many.
pub proof fn law_scrolling_keeps_lines(t: Screen)
    requires
        t.valid(),
        t.row == t.height - 1,
    ensures
        t.line_feed().lines() == if t.lines().len() < MAX_ROWS {
            t.lines().push(Seq::empty())
        } else {
            t.lines().skip(1).push(Seq::empty())
        },
{
    if t.lines().len() < MAX_ROWS {
        assert(t.line_feed().lines() =~= t.lines().push(Seq::empty()));
    } else {
        assert(t.line_feed().lines() =~= t.lines().skip(1).push(Seq::empty()));
    }
}

/// A change of size loses no line that there is room for.
pub proof fn law_resize_keeps_lines(t: Screen, cols: int, height: int)
    requires
        t.valid(),
        cols <= usize::MAX,
        height <= isize::MAX,
        t.scrollback.len() + most(t.height, height) <= MAX_ROWS,
    ensures
        t.resize(cols, height).valid(),
        t.resize(cols, height).lines() == t.lines() + empty_rows(
            most(most(height, 1) - t.height, 0),
        ),
{
    let missing = empty_rows(most(most(height, 1) - t.height, 0));
    assert(t.resize(cols, height).lines() =~= t.lines() + missing);
}

/// Whether the scrollback of `u` is that of `t` with rows added at its end and, where
/// there are too many, the oldest ones dropped.
pub open spec fn only_scrolled(t: Screen, u: Screen) -> bool {
    &&& u.height == t.height
    &&& exists|added: Seq<Seq<char>>|
        u.scrollback == keep_last(#[trigger] (t.scrollback + added), scrollback_limit(t.height))
}

/// Whether one of some characters makes a terminal reset itself.
pub open spec fn resets(t: Screen, s: Seq<char>) -> bool {
    exists|k: int|
        0 <= k < s.len() && t.feed_chars(#[trigger] s.take(k)).state == State::Esc && s[k] == 'c'
}

proof fn lemma_not_scrolled(t: Screen, u: Screen)
    requires
        t.valid(),
        u.height == t.height,
        u.scrollback == t.scrollback,
    ensures
        only_scrolled(t, u),
{
    assert(t.scrollback + Seq::<Seq<char>>::empty() =~= t.scrollback);
}

proof fn lemma_scrolled_twice(t: Screen, u: Screen, v: Screen)
    requires
        only_scrolled(t, u),
        only_scrolled(u, v),
    ensures
        only_scrolled(t, v),
{
    let n = scrollback_limit(t.height);
    let a = choose|a: Seq<Seq<char>>| u.scrollback == keep_last(#[trigger] (t.scrollback + a), n);
    let b = choose|b: Seq<Seq<char>>| v.scrollback == keep_last(#[trigger] (u.scrollback + b), n);
    assert(t.scrollback + (a + b) =~= (t.scrollback + a) + b);
    assert(keep_last(u.scrollback + b, n) =~= keep_last(t.scrollback + (a + b), n));
}

proof fn lemma_line_feed_scrolls(t: Screen)
    requires
        t.valid(),
    ensures
        only_scrolled(t, t.line_feed()),
{
    if t.row + 1 >= t.height {
        assert(t.scrollback + seq![t.rows[0]] =~= t.scrollback.push(t.rows[0]));
    } else {
        lemma_not_scrolled(t, t.line_feed());
    }
}

proof fn lemma_put_scrolls(t: Screen, c: char)
    requires
        t.valid(),
    ensures
        only_scrolled(t, t.put(c)),
{
    if t.col >= t.cols {
        lemma_line_feed_scrolls(t.carriage_return());
    } else {
        lemma_not_scrolled(t, t.put(c));
    }
}

proof fn lemma_put_blanks_scrolls(t: Screen, n: int)
    requires
        t.valid(),
    ensures
        only_scrolled(t, t.put_blanks(n)),
    decreases n,
{
    if n > 0 {
        let u = t.put_blanks(n - 1);
        lemma_put_blanks_sound(t, n - 1);
        lemma_put_blanks_scrolls(t, n - 1);
        lemma_put_scrolls(u, ' ');
        lemma_scrolled_twice(t, u, u.put(' '));
    } else {
        lemma_not_scrolled(t, t);
    }
}

proof fn lemma_feed_char_scrolls(t: Screen, c: char)
    requires
        t.valid(),
        !(t.state == State::Esc && c == 'c'),
    ensures
        only_scrolled(t, t.feed_char(c)),
{
    lemma_line_feed_scrolls(t);
    lemma_line_feed_scrolls(t.carriage_return());
    match t.state {
        State::Ground => {
            if c == '\t' {
                lemma_put_blanks_scrolls(t, least(8 - t.col % 8, most(t.cols - t.col, 0)));
            } else if c == '\u{1b}' || c == '\u{07}' || c == '\0' || c == '\u{08}' || c == '\r' {
                lemma_not_scrolled(t, t.feed_char(c));
            } else {
                lemma_put_scrolls(t, c);
            }
        },
        State::Esc => {
            if c != 'D' && c != 'E' {
                lemma_not_scrolled(t, t.feed_char(c));
            }
        },
        _ => {
            lemma_not_scrolled(t, t.feed_char(c));
        },
    }
}

proof fn lemma_feed_chars_scrolls(t: Screen, s: Seq<char>)
    requires
        t.valid(),
        !resets(t, s),
    ensures
        only_scrolled(t, t.feed_chars(s)),
    decreases s.len(),
{
    if s.len() == 0 {
        lemma_not_scrolled(t, t);
    } else {
        let front = s.drop_last();
        let u = t.feed_chars(front);
        assert(s.take(s.len() - 1) =~= front);
        assert(!resets(t, front)) by {
            assert forall|k: int| 0 <= k < front.len() implies !(t.feed_chars(
                #[trigger] front.take(k),
            ).state == State::Esc && front[k] == 'c') by {
                assert(front.take(k) =~= s.take(k));
            }
        }
        lemma_feed_chars_sound(t, front);
        lemma_feed_chars_scrolls(t, front);
        lemma_feed_char_scrolls(u, s.last());
        lemma_scrolled_twice(t, u, t.feed_chars(s));
    }
}

/// Rows that have scrolled off are never rewritten: unless a reset runs, the scrollback
/// after `feed` is the old one with rows added at its end. The oldest rows are dropped only
/// where there are `MAX_ROWS` rows then.
pub proof fn law_feed_never_rewrites_the_scrollback(t: Screen, data: Seq<u8>)
    requires
        t.valid(),
        !resets(Screen { pending: Seq::empty(), ..t }, decoded(t.pending + data)),
    ensures
        only_scrolled(t, t.feed(data)),
        exists|k: int|
            0 <= k <= t.scrollback.len() && #[trigger] t.scrollback.skip(k).is_prefix_of(
                t.feed(data).scrollback,
            ) && (k > 0 ==> t.feed(data).lines().len() >= MAX_ROWS),
{
    let start = Screen { pending: Seq::empty(), ..t };
    let chars = decoded(t.pending + data);
    lemma_feed_chars_scrolls(start, chars);
    lemma_feed_chars_sound(start, chars);
    let u = t.feed(data);
    let n = scrollback_limit(t.height);
    let added = choose|a: Seq<Seq<char>>|
        start.feed_chars(chars).scrollback == keep_last(#[trigger] (start.scrollback + a), n);
    let all = t.scrollback + added;
    assert(u.scrollback == keep_last(all, n));
    let k = least(most(all.len() - n, 0), t.scrollback.len() as int);
    assert(t.scrollback.skip(k).is_prefix_of(u.scrollback)) by {
        assert(t.scrollback.skip(k) =~= u.scrollback.take(t.scrollback.len() - k));
    }
}

proof fn lemma_blank_lines(lines: Seq<Seq<char>>)
    requires
        forall|i: int| 0 <= i < lines.len() ==> is_blank(#[trigger] lines[i]),
    ensures
        without_trailing_blanks(lines) == Seq::<Seq<char>>::empty(),
    decreases lines.len(),
{
    if lines.len() > 0 {
        lemma_blank_lines(lines.drop_last());
    }
}

/// After a reset the terminal shows nothing.
pub proof fn law_reset_shows_nothing(t: Screen)
    requires
        t.valid(),
    ensures
        t.reset().render() == Seq::<char>::empty(),
        t.in_state(State::Ground).feed_chars(seq!['\u{1b}', 'c']).render() == Seq::<char>::empty(),
{
    lemma_blank_lines(t.reset().lines());
    let u = t.in_state(State::Ground);
    let s = seq!['\u{1b}', 'c'];
    assert(s.drop_last() =~= Seq::<char>::empty().push('\u{1b}'));
    lemma_feed_one(u, Seq::empty(), '\u{1b}');
    assert(u.feed_chars(s).lines() =~= t.reset().lines());
}

/// The parameters of a control sequence are collected.
pub proof fn lemma_collects_params(t: Screen, ps: Seq<char>)
    requires
        t.state == State::Csi,
        forall|i: int| 0 <= i < ps.len() ==> '\u{20}' <= #[trigger] ps[i] && ps[i] <= '\u{3f}',
    ensures
        t.feed_chars(ps) == (Screen { params: t.params + ps, ..t }),
    decreases ps.len(),
{
    if ps.len() == 0 {
        assert(t.params + ps =~= t.params);
    } else {
        lemma_collects_params(t, ps.drop_last());
        assert(t.params + ps =~= (t.params + ps.drop_last()).push(ps.last()));
    }
}

/// What a whole control sequence does: its parameters are handed to the function that
/// its final byte names, and the terminal expects text again.
pub proof fn law_control_sequence(t: Screen, ps: Seq<char>, c: char)
    requires
        t.state == State::Ground,
        forall|i: int| 0 <= i < ps.len() ==> '\u{20}' <= #[trigger] ps[i] && ps[i] <= '\u{3f}',
        '\u{40}' <= c && c <= '\u{7e}',
    ensures
        t.feed_chars(seq!['\u{1b}', '['] + ps + seq![c]) == (Screen {
            state: State::Ground,
            params: Seq::empty(),
            ..(Screen { state: State::Csi, params: ps, ..t }).csi_dispatch(c)
        }),
{
    let intro = seq!['\u{1b}', '['];
    let start = Screen { state: State::Csi, params: Seq::empty(), ..t };
    assert(intro =~= Seq::<char>::empty().push('\u{1b}').push('['));
    lemma_feed_one(t, Seq::empty(), '\u{1b}');
    lemma_feed_one(t, Seq::<char>::empty().push('\u{1b}'), '[');
    assert(t.feed_chars(intro) =~= start);
    lemma_collects_params(start, ps);
    assert(start.params + ps =~= ps);
    lemma_feed_chars_concat(t, intro, ps);
    assert(intro + ps + seq![c] =~= (intro + ps).push(c));
    lemma_feed_one(t, intro + ps, c);
}

/// Colours and other renditions leave the terminal as it is.
pub proof fn law_colours_are_dropped(t: Screen, ps: Seq<char>)
    requires
        t.state == State::Ground,
        t.params.len() == 0,
        forall|i: int| 0 <= i < ps.len() ==> '\u{20}' <= #[trigger] ps[i] && ps[i] <= '\u{3f}',
    ensures
        t.feed_chars(seq!['\u{1b}', '['] + ps + seq!['m']) == t,
{
    law_control_sequence(t, ps, 'm');
    assert(t.feed_chars(seq!['\u{1b}', '['] + ps + seq!['m']) =~= t);
}

proof fn lemma_collects_command(t: Screen, s: Seq<char>)
    requires
        t.state == State::Osc,
        !s.contains('\u{07}'),
        !s.contains('\u{1b}'),
    ensures
        t.feed_chars(s) == (Screen { osc: t.osc + s, ..t }),
    decreases s.len(),
{
    if s.len() == 0 {
        assert(t.osc + s =~= t.osc);
    } else {
        let front = s.drop_last();
        assert forall|c: char| front.contains(c) implies s.contains(c) by {
            let i = choose|i: int| 0 <= i < front.len() && front[i] == c;
            assert(s[i] == c);
        }
        lemma_collects_command(t, front);
        assert(s.contains(s.last()));
        assert(t.osc + s =~= (t.osc + front).push(s.last()));
    }
}

/// An operating system command, such as one that sets the window's title, leaves the
/// terminal as it is.
pub proof fn law_system_commands_are_dropped(t: Screen, s: Seq<char>)
    requires
        t.state == State::Ground,
        t.osc.len() == 0,
        !s.contains('\u{07}'),
        !s.contains('\u{1b}'),
    ensures
        t.feed_chars(seq!['\u{1b}', ']'] + s + seq!['\u{07}']) == t,
{
    let intro = seq!['\u{1b}', ']'];
    let start = Screen { state: State::Osc, osc: Seq::empty(), ..t };
    assert(intro =~= Seq::<char>::empty().push('\u{1b}').push(']'));
    lemma_feed_one(t, Seq::empty(), '\u{1b}');
    lemma_feed_one(t, Seq::<char>::empty().push('\u{1b}'), ']');
    assert(t.feed_chars(intro) =~= start);
    lemma_collects_command(start, s);
    lemma_feed_chars_concat(t, intro, s);
    assert(intro + s + seq!['\u{07}'] =~= (intro + s).push('\u{07}'));
    lemma_feed_one(t, intro + s, '\u{07}');
    assert(t.feed_chars(intro + s + seq!['\u{07}']) =~= t);
}

/// An operating system command is collected until it ends.
pub proof fn lemma_command_collected(t: Screen, s: Seq<char>)
    requires
        t.state == State::Ground,
        !s.contains('\u{07}'),
        !s.contains('\u{1b}'),
    ensures
        t.feed_chars(seq!['\u{1b}', ']'] + s) == (Screen { state: State::Osc, osc: s, ..t }),
{
    let intro = seq!['\u{1b}', ']'];
    let start = Screen { state: State::Osc, osc: Seq::empty(), ..t };
    assert(intro =~= Seq::<char>::empty().push('\u{1b}').push(']'));
    lemma_feed_one(t, Seq::empty(), '\u{1b}');
    lemma_feed_one(t, Seq::<char>::empty().push('\u{1b}'), ']');
    assert(t.feed_chars(intro) =~= start);
    lemma_collects_command(start, s);
    lemma_feed_chars_concat(t, intro, s);
    assert(start.osc + s =~= s);
}

/// A character is written where the cursor stands, and only there.
pub proof fn law_put_writes_one_cell(t: Screen, c: char)
    requires
        t.valid(),
        t.col < t.cols,
    ensures
        t.put(c).col == t.col + 1,
        t.put(c).row == t.row,
        t.put(c).scrollback == t.scrollback,
        t.put(c).current()[t.col] == c,
        forall|i: int|
            0 <= i < t.current().len() && i != t.col ==> t.put(c).current()[i]
                == #[trigger] t.current()[i],
        forall|i: int|
            0 <= i < t.rows.len() && i != t.row ==> t.put(c).rows[i] == #[trigger] t.rows[i],
{
}

/// Whether a row holds no line break.
pub open spec fn one_line(r: Seq<char>) -> bool {
    forall|i: int| 0 <= i < r.len() ==> #[trigger] r[i] != '\n'
}

/// Whether no row of some lines holds a line break.
pub open spec fn all_one_line(lines: Seq<Seq<char>>) -> bool {
    forall|i: int| 0 <= i < lines.len() ==> one_line(#[trigger] lines[i])
}

impl Screen {
    /// Whether no row holds a line break.
    pub open spec fn clean(self) -> bool {
        all_one_line(self.rows) && all_one_line(self.scrollback)
    }
}

proof fn lemma_line_feed_clean(t: Screen)
    requires
        t.valid(),
        t.clean(),
    ensures
        t.line_feed().clean(),
{
    let u = t.line_feed();
    if t.row + 1 >= t.height {
        assert(one_line(t.rows[0]));
        let all = t.scrollback.push(t.rows[0]);
        assert forall|i: int| 0 <= i < u.scrollback.len() implies one_line(
            #[trigger] u.scrollback[i],
        ) by {
            let k = i + all.len() - u.scrollback.len();
            assert(u.scrollback[i] == all[k]);
            if k < t.scrollback.len() {
                assert(one_line(t.scrollback[k]));
            }
        }
        assert forall|i: int| 0 <= i < u.rows.len() implies one_line(#[trigger] u.rows[i]) by {
            if i < u.rows.len() - 1 {
                assert(one_line(t.rows[i + 1]));
            }
        }
    }
}

proof fn lemma_with_current_clean(t: Screen, r: Seq<char>)
    requires
        t.valid(),
        t.clean(),
        one_line(r),
    ensures
        t.with_current(r).clean(),
{
    let u = t.with_current(r);
    assert forall|i: int| 0 <= i < u.rows.len() implies one_line(#[trigger] u.rows[i]) by {
        if i != t.row {
            assert(one_line(t.rows[i]));
        }
    }
}

proof fn lemma_put_clean(t: Screen, c: char)
    requires
        t.valid(),
        t.clean(),
        c != '\n',
    ensures
        t.put(c).clean(),
{
    lemma_line_feed_clean(t.carriage_return());
    let u = if t.col >= t.cols {
        t.carriage_return().line_feed()
    } else {
        t
    };
    let r = u.current();
    assert(one_line(u.rows[u.row]));
    let padded = r + blanks(most(u.col + 1 - r.len(), 0));
    let written = padded.update(u.col, c);
    assert forall|i: int| 0 <= i < written.len() implies #[trigger] written[i] != '\n' by {
        if i != u.col && i < r.len() {
            assert(r[i] != '\n');
        }
    }
    lemma_with_current_clean(u, written);
}

proof fn lemma_put_blanks_clean(t: Screen, n: int)
    requires
        t.valid(),
        t.clean(),
    ensures
        t.put_blanks(n).clean(),
    decreases n,
{
    if n > 0 {
        lemma_put_blanks_sound(t, n - 1);
        lemma_put_blanks_clean(t, n - 1);
        lemma_put_clean(t.put_blanks(n - 1), ' ');
    }
}

proof fn lemma_erase_line_clean(t: Screen, mode: int)
    requires
        t.valid(),
        t.clean(),
    ensures
        t.erase_line(mode).clean(),
{
    let r = t.current();
    assert(one_line(t.rows[t.row]));
    if mode == 0 || mode == 1 || mode == 2 {
        let u = t.erase_line(mode);
        assert(u == t.with_current(u.rows[t.row]));
        assert(one_line(u.rows[t.row])) by {
            assert forall|i: int| 0 <= i < u.rows[t.row].len() implies #[trigger] u.rows[t.row][i]
                != '\n' by {
                assert(r[i] != '\n');
            }
        }
        lemma_with_current_clean(t, u.rows[t.row]);
    }
}

proof fn lemma_csi_dispatch_clean(t: Screen, c: char)
    requires
        t.valid(),
        t.clean(),
    ensures
        t.csi_dispatch(c).clean(),
{
    let u = t.csi_dispatch(c);
    let r = t.current();
    let count = least(t.param(0, 1), usize::MAX as int);
    let mode = t.param(0, 0) % 256;
    assert(one_line(t.rows[t.row]));
    if c == 'J' {
        lemma_erase_line_clean(t, mode);
        let v = t.erase_line(mode);
        assert forall|i: int| 0 <= i < u.rows.len() implies one_line(#[trigger] u.rows[i]) by {
            assert(one_line(v.rows[i]));
            assert(one_line(t.rows[i]));
        }
    } else if c == 'K' {
        lemma_erase_line_clean(t, mode);
    } else if c == 'P' {
        if t.col < r.len() {
            let k = least(t.col + count, r.len() as int);
            let w = r.take(t.col) + r.skip(k);
            assert forall|i: int| 0 <= i < w.len() implies #[trigger] w[i] != '\n' by {
                if i < t.col {
                    assert(r[i] != '\n');
                } else {
                    assert(r[i - t.col + k] != '\n');
                }
            }
            lemma_with_current_clean(t, w);
        }
    } else if c == '@' {
        if t.col <= r.len() {
            let w = r.take(t.col) + blanks(count) + r.skip(t.col);
            assert forall|i: int| 0 <= i < w.len() implies #[trigger] w[i] != '\n' by {
                if i < t.col {
                    assert(r[i] != '\n');
                } else if i >= t.col + count {
                    assert(r[i - count] != '\n');
                }
            }
            lemma_with_current_clean(t, w);
        }
    } else if c == 'L' {
        let k = least(count, t.height - t.row);
        assert forall|i: int| 0 <= i < u.rows.len() implies one_line(#[trigger] u.rows[i]) by {
            if i < t.row {
                assert(one_line(t.rows[i]));
            } else if i >= t.row + k {
                assert(one_line(t.rows[i - k]));
            }
        }
    } else if c == 'M' {
        let k = least(count, t.height - t.row);
        assert forall|i: int| 0 <= i < u.rows.len() implies one_line(#[trigger] u.rows[i]) by {
            if i < t.row {
                assert(one_line(t.rows[i]));
            } else if i < t.height - k {
                assert(one_line(t.rows[i + k]));
            }
        }
    }
}

proof fn lemma_feed_char_clean(t: Screen, c: char)
    requires
        t.valid(),
        t.clean(),
    ensures
        t.feed_char(c).clean(),
{
    lemma_line_feed_clean(t);
    lemma_line_feed_clean(t.carriage_return());
    match t.state {
        State::Ground => {
            if c == '\t' {
                lemma_put_blanks_clean(t, least(8 - t.col % 8, most(t.cols - t.col, 0)));
            } else if c != '\n' {
                lemma_put_clean(t, c);
            }
        },
        State::Esc => {
            if c == 'M' {
                let u = t.reverse_index();
                assert forall|i: int| 0 <= i < u.rows.len() implies one_line(
                    #[trigger] u.rows[i],
                ) by {
                    assert(one_line(t.rows[i]));
                    if t.row == 0 && i > 0 {
                        assert(one_line(t.rows[i - 1]));
                    }
                }
            }
        },
        State::Csi => {
            lemma_csi_dispatch_clean(t, c);
        },
        _ => {},
    }
}

proof fn lemma_feed_chars_clean(t: Screen, s: Seq<char>)
    requires
        t.valid(),
        t.clean(),
    ensures
        t.feed_chars(s).clean(),
    decreases s.len(),
{
    if s.len() > 0 {
        lemma_feed_chars_sound(t, s.drop_last());
        lemma_feed_chars_clean(t, s.drop_last());
        lemma_feed_char_clean(t.feed_chars(s.drop_last()), s.last());
    }
}

/// No byte sequence puts a line break into a row.
pub proof fn law_feed_keeps_rows_one_line(t: Screen, data: Seq<u8>)
    requires
        t.valid(),
        t.clean(),
    ensures
        t.feed(data).clean(),
{
    let bytes = t.pending + data;
    lemma_feed_chars_clean(Screen { pending: Seq::empty(), ..t }, decoded(bytes));
}

/// Nor does a change of size.
pub proof fn law_resize_keeps_rows_one_line(t: Screen, cols: int, height: int)
    requires
        t.valid(),
        t.clean(),
    ensures
        t.resize(cols, height).clean(),
{
    let u = t.resize(cols, height);
    let surplus = most(t.rows.len() - most(height, 1), 0);
    let all = t.scrollback + t.rows.take(surplus);
    assert forall|i: int| 0 <= i < u.scrollback.len() implies one_line(
        #[trigger] u.scrollback[i],
    ) by {
        let k = i + all.len() - u.scrollback.len();
        assert(u.scrollback[i] == all[k]);
        if k < t.scrollback.len() {
            assert(one_line(t.scrollback[k]));
        } else {
            assert(one_line(t.rows[k - t.scrollback.len()]));
        }
    }
    assert forall|i: int| 0 <= i < u.rows.len() implies one_line(#[trigger] u.rows[i]) by {
        if i + surplus < t.rows.len() {
            assert(one_line(t.rows[i + surplus]));
        }
    }
}

/// How many lines a text has: none where it is empty, otherwise one more than it has line
/// breaks.
pub open spec fn line_count(s: Seq<char>) -> int {
    if s.len() == 0 {
        0
    } else {
        breaks(s) + 1
    }
}

/// How many line breaks a text has.
pub open spec fn breaks(s: Seq<char>) -> int
    decreases s.len(),
{
    if s.len() == 0 {
        0
    } else {
        breaks(s.drop_last()) + if s.last() == '\n' {
            1int
        } else {
            0
        }
    }
}

pub proof fn lemma_breaks_concat(a: Seq<char>, b: Seq<char>)
    ensures
        breaks(a + b) == breaks(a) + breaks(b),
    decreases b.len(),
{
    if b.len() == 0 {
        assert(a + b =~= a);
    } else {
        assert((a + b).drop_last() =~= a + b.drop_last());
        lemma_breaks_concat(a, b.drop_last());
    }
}

proof fn lemma_no_breaks(s: Seq<char>)
    requires
        one_line(s),
    ensures
        breaks(s) == 0,
    decreases s.len(),
{
    if s.len() > 0 {
        assert(one_line(s.drop_last())) by {
            assert forall|i: int| 0 <= i < s.len() - 1 implies #[trigger] s.drop_last()[i]
                != '\n' by {
                assert(s[i] != '\n');
            }
        }
        lemma_no_breaks(s.drop_last());
    }
}

proof fn lemma_trimmed_end_one_line(s: Seq<char>)
    requires
        one_line(s),
    ensures
        one_line(text::trimmed_end(s)),
    decreases s.len(),
{
    if s.len() > 0 && text::whitespace(s.last()) {
        assert forall|i: int| 0 <= i < s.len() - 1 implies #[trigger] s.drop_last()[i] != '\n' by {
            assert(s[i] != '\n');
        }
        lemma_trimmed_end_one_line(s.drop_last());
    }
}

proof fn lemma_join_breaks(lines: Seq<Seq<char>>)
    requires
        all_one_line(lines),
    ensures
        breaks(join_lines(lines)) == most(lines.len() - 1, 0),
    decreases lines.len(),
{
    if lines.len() > 0 {
        let front = lines.drop_last();
        assert forall|i: int| 0 <= i < front.len() implies one_line(#[trigger] front[i]) by {
            assert(one_line(lines[i]));
        }
        assert(one_line(lines[lines.len() - 1]));
        lemma_join_breaks(front);
        let last = text::trimmed_end(lines.last());
        lemma_trimmed_end_one_line(lines.last());
        lemma_no_breaks(last);
        if lines.len() > 1 {
            let joined = join_lines(front).push('\n');
            assert(joined.drop_last() =~= join_lines(front));
            lemma_breaks_concat(joined, last);
        }
    }
}

proof fn lemma_blank_trim_prefix(lines: Seq<Seq<char>>)
    ensures
        without_trailing_blanks(lines).len() <= lines.len(),
        without_trailing_blanks(lines) == lines.take(without_trailing_blanks(lines).len() as int),
    decreases lines.len(),
{
    if lines.len() > 0 && is_blank(lines.last()) {
        lemma_blank_trim_prefix(lines.drop_last());
        let n = without_trailing_blanks(lines).len() as int;
        assert(lines.drop_last().take(n) =~= lines.take(n));
    } else {
        assert(lines.take(lines.len() as int) =~= lines);
    }
}

/// What a terminal shows has at most `RENDER_ROWS` lines.
pub proof fn law_rendering_is_bounded(t: Screen)
    requires
        t.clean(),
    ensures
        line_count(t.render()) <= RENDER_ROWS,
{
    let lines = t.lines();
    assert forall|i: int| 0 <= i < lines.len() implies one_line(#[trigger] lines[i]) by {
        if i < t.scrollback.len() {
            assert(one_line(t.scrollback[i]));
        } else {
            assert(one_line(t.rows[i - t.scrollback.len()]));
        }
    }
    lemma_blank_trim_prefix(lines);
    let shown = keep_last(without_trailing_blanks(lines), RENDER_ROWS as int);
    let w = without_trailing_blanks(lines);
    assert forall|i: int| 0 <= i < shown.len() implies one_line(#[trigger] shown[i]) by {
        let k = i + w.len() - shown.len();
        assert(shown[i] == w[k]);
        assert(w[k] == lines[k]);
    }
    lemma_join_breaks(shown);
}

} // verus!
