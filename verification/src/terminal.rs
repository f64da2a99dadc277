//! A compact VT100/VT220-ish terminal buffer.
//!
//! Character-based grid: each cell holds one `char`, so multibyte glyphs (Nerd Font
//! icons, CJK, emoji) keep one column. Handles the escape sequences that shells emit
//! most often (cursor movement, line and screen erase, SGR colour stripping, OSC
//! title, insert and delete). Not a full xterm.
//!
//! What each operation does is stated over the [`Screen`] that a buffer stands for.

use vstd::prelude::*;
use vstd::utf8::*;

use crate::screen;
use crate::screen::{Screen, State, MAX_ROWS, RENDER_ROWS, REPLACEMENT};
use crate::text;

verus! {

/// A terminal.
pub struct TerminalBuffer {
    rows: Vec<Vec<char>>,
    cur_row: usize,
    cur_col: usize,
    cols: usize,
    state: State,
    params: Vec<char>,
    osc_buf: Vec<char>,
    height: usize,
    scrollback: Vec<Vec<char>>,
    /// Bytes of an incomplete character, carried over to the next `feed`.
    pending: Vec<u8>,
}

impl View for TerminalBuffer {
    type V = Screen;

    closed spec fn view(&self) -> Screen {
        Screen {
            rows: text::views(self.rows@),
            scrollback: text::views(self.scrollback@),
            row: self.cur_row as int,
            col: self.cur_col as int,
            cols: self.cols as int,
            height: self.height as int,
            state: self.state,
            params: self.params@,
            osc: self.osc_buf@,
            pending: self.pending@,
        }
    }
}

impl TerminalBuffer {
    /// What holds of every terminal buffer.
    pub open spec fn valid(&self) -> bool {
        self@.valid()
    }

    /// A blank terminal with the given number of columns and rows (at least one row).
    pub fn new(cols: usize, rows: usize) -> (r: Self)
        requires
            rows <= isize::MAX,
        ensures
            r.valid(),
            r@ == Screen::blank(cols as int, screen::most(rows as int, 1)),
    {
        let rows_init: usize = if rows < 1 {
            1
        } else {
            rows
        };
        let blank = Self::blank_rows(rows_init);
        let r = Self {
            rows: blank,
            cur_row: 0,
            cur_col: 0,
            cols,
            height: rows_init,
            scrollback: Vec::new(),
            state: State::Ground,
            params: Vec::new(),
            osc_buf: Vec::new(),
            pending: Vec::new(),
        };
        assert(r@ =~= Screen::blank(cols as int, screen::most(rows as int, 1)));
        r
    }

    fn blank_rows(n: usize) -> (r: Vec<Vec<char>>)
        ensures
            text::views(r@) == screen::empty_rows(n as int),
    {
        let mut out: Vec<Vec<char>> = Vec::new();
        while out.len() < n
            invariant
                out@.len() <= n,
                text::views(out@) =~= screen::empty_rows(out@.len() as int),
            decreases n - out@.len(),
        {
            let ghost before = out@;
            out.push(Vec::new());
            assert(text::views(out@) =~= text::views(before).push(Seq::empty()));
        }
        out
    }

    /// Gives the screen another size. The visible screen is exactly `rows` rows:
    /// surplus rows scroll off into the scrollback and missing rows are padded with
    /// blank ones.
    pub fn resize(&mut self, cols: usize, rows: usize)
        requires
            old(self).valid(),
            rows <= isize::MAX,
        ensures
            final(self).valid(),
            final(self)@ == old(self)@.resize(cols as int, rows as int),
    {
        let ghost before = self@;
        self.cols = if cols < 1 {
            1
        } else {
            cols
        };
        let new_height: usize = if rows < 1 {
            1
        } else {
            rows
        };
        let ghost mut k: int = 0;
        assert(before.rows.skip(0) =~= before.rows);
        assert(before.scrollback + before.rows.take(0) =~= before.scrollback);
        while self.rows.len() > new_height
            invariant
                before.valid(),
                1 <= new_height,
                0 <= k,
                k + self.rows@.len() == before.rows.len(),
                k == 0 || self.rows@.len() >= new_height,
                text::views(self.rows@) == before.rows.skip(k),
                text::views(self.scrollback@) == before.scrollback + before.rows.take(k),
                self.cur_row == screen::most(before.row - k, 0),
                self@ == (Screen {
                    rows: text::views(self.rows@),
                    scrollback: text::views(self.scrollback@),
                    row: self.cur_row as int,
                    cols: screen::most(cols as int, 1),
                    ..before
                }),
            decreases self.rows@.len(),
        {
            let ghost r0 = self.rows@;
            let ghost s0 = self.scrollback@;
            let top = self.rows.remove(0);
            self.scrollback.push(top);
            if self.cur_row > 0 {
                self.cur_row -= 1;
            }
            proof {
                assert(text::views(r0)[0] == before.rows.skip(k)[0]);
                assert(text::views(self.rows@) =~= text::views(r0).skip(1));
                assert(before.rows.skip(k).skip(1) =~= before.rows.skip(k + 1));
                assert(text::views(self.scrollback@) =~= text::views(s0).push(before.rows[k]));
                assert(before.rows.take(k + 1) =~= before.rows.take(k).push(before.rows[k]));
                assert((before.scrollback + before.rows.take(k)).push(before.rows[k])
                    =~= before.scrollback + before.rows.take(k + 1));
                k = k + 1;
            }
        }
        let ghost surplus = screen::most(before.rows.len() - new_height, 0);
        assert(k == surplus);
        let ghost kept = text::views(self.rows@);
        assert(kept + screen::empty_rows(0) =~= kept);
        while self.rows.len() < new_height
            invariant
                before.valid(),
                kept.len() <= self.rows@.len(),
                self.rows@.len() <= screen::most(new_height as int, kept.len() as int),
                text::views(self.rows@) == kept + screen::empty_rows(self.rows@.len() - kept.len()),
                self@ == (Screen {
                    rows: text::views(self.rows@),
                    scrollback: before.scrollback + before.rows.take(surplus),
                    row: screen::most(before.row - surplus, 0),
                    cols: screen::most(cols as int, 1),
                    ..before
                }),
            decreases new_height - self.rows@.len(),
        {
            let ghost r0 = self.rows@;
            self.rows.push(Vec::new());
            assert(text::views(self.rows@) =~= text::views(r0).push(Seq::empty()));
            assert(text::views(self.rows@) =~= kept + screen::empty_rows(
                self.rows@.len() - kept.len(),
            ));
        }
        self.height = new_height;
        if self.cur_row >= self.height {
            self.cur_row = self.height - 1;
        }
        self.cap_total();
        assert(self@ =~= before.resize(cols as int, rows as int));
    }

    /// Current grid width in columns.
    pub fn cols(&self) -> (r: usize)
        ensures
            r == self@.cols,
    {
        self.cols
    }

    /// Cap the combined scrollback + screen to `MAX_ROWS`, dropping the oldest scrollback
    /// rows. The screen itself is always `height` rows, so only the scrollback ever needs
    /// trimming.
    fn cap_total(&mut self)
        ensures
            final(self)@ == (Screen {
                scrollback: screen::keep_last(
                    old(self)@.scrollback,
                    screen::scrollback_limit(old(self)@.height),
                ),
                ..old(self)@
            }),
    {
        let ghost before = self@;
        let limit: usize = if self.height < MAX_ROWS {
            MAX_ROWS - self.height
        } else {
            0
        };
        let ghost mut k: int = 0;
        assert(before.scrollback.skip(0) =~= before.scrollback);
        while self.scrollback.len() > limit
            invariant
                0 <= k,
                k + self.scrollback@.len() == before.scrollback.len(),
                k == 0 || self.scrollback@.len() >= limit,
                text::views(self.scrollback@) == before.scrollback.skip(k),
                self@ == (Screen { scrollback: text::views(self.scrollback@), ..before }),
            decreases self.scrollback@.len(),
        {
            let ghost s0 = self.scrollback@;
            let _ = self.scrollback.remove(0);
            proof {
                assert(text::views(self.scrollback@) =~= text::views(s0).skip(1));
                assert(before.scrollback.skip(k).skip(1) =~= before.scrollback.skip(k + 1));
                k = k + 1;
            }
        }
    }

    fn line_feed(&mut self)
        requires
            old(self).valid(),
        ensures
            final(self).valid(),
            final(self)@ == old(self)@.line_feed(),
    {
        let ghost before = self@;
        if self.cur_row + 1 >= self.height {
            // past the last screen row: scroll up (top row -> scrollback) and
            // keep the cursor on the bottom row, exactly like a real terminal.
            let ghost r0 = self.rows@;
            let ghost s0 = self.scrollback@;
            let top = self.rows.remove(0);
            self.scrollback.push(top);
            self.rows.push(Vec::new());
            self.cur_row = self.height - 1;
            proof {
                assert(text::views(self.rows@) =~= text::views(r0).skip(1).push(Seq::empty()));
                assert(text::views(self.scrollback@) =~= text::views(s0).push(before.rows[0]));
            }
            self.cap_total();
        } else {
            self.cur_row += 1;
        }
        assert(self@ =~= before.line_feed());
    }

    fn put(&mut self, c: char)
        requires
            old(self).valid(),
        ensures
            final(self).valid(),
            final(self)@ == old(self)@.put(c),
    {
        let ghost before = self@;
        if self.cur_col >= self.cols {
            self.cur_col = 0;
            assert(self@ =~= before.carriage_return());
            self.line_feed();
        }
        let ghost t = self@;
        let ghost r0 = self.rows@;
        let ghost line = t.current();
        let row = &mut self.rows[self.cur_row];
        assert(row@ =~= line + screen::blanks(0));
        while row.len() <= self.cur_col
            invariant
                row@.len() >= line.len(),
                row@.len() <= screen::most(line.len() as int, self.cur_col + 1),
                row@ == line + screen::blanks(row@.len() - line.len()),
            decreases self.cur_col + 1 - row@.len(),
        {
            row.push(' ');
            assert(row@ =~= line + screen::blanks(row@.len() - line.len()));
        }
        row[self.cur_col] = c;
        self.cur_col += 1;
        assert(self@ =~= before.put(c));
    }

    fn backspace(&mut self)
        requires
            old(self).valid(),
        ensures
            final(self).valid(),
            final(self)@ == old(self)@.backspace(),
    {
        if self.cur_col > 0 {
            self.cur_col -= 1;
        }
    }

    /// Pads with blanks up to the next tab stop. A stop behind the last column is out
    /// of reach: the padding then ends at the right edge.
    fn tab(&mut self)
        requires
            old(self).valid(),
        ensures
            final(self).valid(),
            final(self)@ == old(self)@.tab(),
    {
        let ghost before = self@;
        let to_stop: usize = 8 - self.cur_col % 8;
        let to_edge: usize = if self.cols > self.cur_col {
            self.cols - self.cur_col
        } else {
            0
        };
        let n: usize = if to_stop < to_edge {
            to_stop
        } else {
            to_edge
        };
        let mut i: usize = 0;
        while i < n
            invariant
                i <= n,
                self.valid(),
                self@ == before.put_blanks(i as int),
            decreases n - i,
        {
            self.put(' ');
            i += 1;
        }
    }

    fn reverse_index(&mut self)
        requires
            old(self).valid(),
        ensures
            final(self).valid(),
            final(self)@ == old(self)@.reverse_index(),
    {
        let ghost before = self@;
        if self.cur_row == 0 {
            // scroll down: drop the bottom row, insert a blank at the top
            let ghost r0 = self.rows@;
            let _ = self.rows.pop();
            self.rows.insert(0, Vec::new());
            assert(text::views(self.rows@) =~= seq![Seq::<char>::empty()]
                + text::views(r0).drop_last());
        } else {
            self.cur_row -= 1;
        }
        assert(self@ =~= before.reverse_index());
    }

    /// `at + by`, clamped to `0..=last`.
    fn shifted(at: usize, by: i64, last: usize) -> (r: usize)
        ensures
            r == screen::clamped(at + by, 0, last as int),
    {
        let target: i128 = at as i128 + by as i128;
        if target < 0 {
            0
        } else if target > last as i128 {
            last
        } else {
            target as usize
        }
    }

    fn last_col(&self) -> (r: usize)
        ensures
            r == self@.last_col(),
    {
        if self.cols > 0 {
            self.cols - 1
        } else {
            0
        }
    }

    fn move_cursor(&mut self, dcol: i64, drow: i64)
        requires
            old(self).valid(),
        ensures
            final(self).valid(),
            final(self)@ == old(self)@.move_by(dcol as int, drow as int),
    {
        let ghost before = self@;
        self.cur_col = Self::shifted(self.cur_col, dcol, self.last_col());
        self.cur_row = Self::shifted(self.cur_row, drow, self.height - 1);
        assert(self@ =~= before.move_by(dcol as int, drow as int));
    }

    fn set_col(&mut self, col: i64)
        requires
            old(self).valid(),
            col >= 0,
        ensures
            final(self).valid(),
            final(self)@ == old(self)@.to_col(col as int),
    {
        let ghost before = self@;
        self.cur_col = Self::shifted(0, col - 1, self.last_col());
        assert(self@ =~= before.to_col(col as int));
    }

    fn set_row(&mut self, row: i64)
        requires
            old(self).valid(),
            row >= 0,
        ensures
            final(self).valid(),
            final(self)@ == old(self)@.to_row(row as int),
    {
        let ghost before = self@;
        self.cur_row = Self::shifted(0, row - 1, self.height - 1);
        assert(self@ =~= before.to_row(row as int));
    }

    fn erase_line(&mut self, mode: u8)
        requires
            old(self).valid(),
        ensures
            final(self).valid(),
            final(self)@ == old(self)@.erase_line(mode as int),
    {
        let ghost before = self@;
        let ghost r0 = self.rows@;
        let ghost line = before.current();
        let col = self.cur_col;
        let row = &mut self.rows[self.cur_row];
        assert(row@ == line);
        if mode == 0 {
            let mut i: usize = col;
            while i < row.len()
                invariant
                    col <= i,
                    row@.len() == line.len(),
                    forall|j: int|
                        0 <= j < row@.len() ==> #[trigger] row@[j] == (if col <= j < i {
                            ' '
                        } else {
                            line[j]
                        }),
                decreases row@.len() - i,
            {
                row[i] = ' ';
                i += 1;
            }
        } else if mode == 1 {
            let mut i: usize = 0;
            while i < row.len() && i <= col
                invariant
                    i <= row@.len(),
                    i <= col + 1,
                    row@.len() == line.len(),
                    forall|j: int|
                        0 <= j < row@.len() ==> #[trigger] row@[j] == (if j < i {
                            ' '
                        } else {
                            line[j]
                        }),
                decreases row@.len() - i,
            {
                row[i] = ' ';
                i += 1;
            }
        } else if mode == 2 {
            row.clear();
        }
        proof {
            let want = before.erase_line(mode as int);
            assert(self.rows@[before.row]@ =~= want.rows[before.row]);
            assert(self@.rows =~= want.rows);
            assert(self@ =~= want);
        }
    }

    /// Empties the rows from `from` up to, but not including, `to`.
    fn clear_rows(&mut self, from: usize, to: usize)
        requires
            old(self).valid(),
            from <= to <= old(self)@.height,
        ensures
            final(self).valid(),
            final(self)@ == (Screen {
                rows: Seq::new(
                    old(self)@.rows.len(),
                    |i: int|
                        if from <= i < to {
                            Seq::empty()
                        } else {
                            old(self)@.rows[i]
                        },
                ),
                ..old(self)@
            }),
    {
        let ghost before = self@;
        let mut k: usize = from;
        while k < to
            invariant
                from <= k <= to,
                to <= before.height,
                before.valid(),
                self@.rows.len() == before.rows.len(),
                forall|i: int|
                    0 <= i < before.rows.len() ==> #[trigger] self@.rows[i] == (if from <= i < k {
                        Seq::empty()
                    } else {
                        before.rows[i]
                    }),
                self@ == (Screen { rows: self@.rows, ..before }),
            decreases to - k,
        {
            let ghost r0 = self.rows@;
            self.rows[k].clear();
            assert(self@.rows =~= text::views(r0).update(k as int, Seq::empty()));
            k += 1;
        }
        assert(self@.rows =~= Seq::new(
            before.rows.len(),
            |i: int|
                if from <= i < to {
                    Seq::empty()
                } else {
                    before.rows[i]
                },
        ));
    }

    fn erase_display(&mut self, mode: u8)
        requires
            old(self).valid(),
        ensures
            final(self).valid(),
            final(self)@ == old(self)@.erase_display(mode as int),
    {
        let ghost before = self@;
        if mode == 0 {
            self.erase_line(0);
            self.clear_rows(self.cur_row + 1, self.height);
        } else if mode == 1 {
            self.erase_line(1);
            self.clear_rows(0, self.cur_row);
        } else if mode == 2 || mode == 3 {
            self.clear_rows(0, self.height);
            self.cur_row = 0;
            self.cur_col = 0;
        }
        proof {
            assert(self@.rows =~= before.erase_display(mode as int).rows);
            assert(self@ =~= before.erase_display(mode as int));
        }
    }

    fn delete_chars(&mut self, n: usize)
        requires
            old(self).valid(),
        ensures
            final(self).valid(),
            final(self)@ == old(self)@.delete_chars(n as int),
    {
        let ghost before = self@;
        let ghost line = before.current();
        let col = self.cur_col;
        let row = &mut self.rows[self.cur_row];
        if col < row.len() {
            let left: usize = row.len() - col;
            let gone: usize = if n < left {
                n
            } else {
                left
            };
            let head = text::slice_chars(row.as_slice(), 0, col);
            let mut tail = text::slice_chars(row.as_slice(), col + gone, row.len());
            let mut joined = head;
            joined.append(&mut tail);
            assert(joined@ =~= line.take(col as int) + line.skip(col + gone));
            *row = joined;
        }
        proof {
            let want = before.delete_chars(n as int);
            assert(self@.rows =~= want.rows);
            assert(self@ =~= want);
        }
    }

    fn insert_chars(&mut self, n: usize)
        requires
            old(self).valid(),
        ensures
            final(self).valid(),
            final(self)@ == old(self)@.insert_chars(n as int),
    {
        let ghost before = self@;
        let ghost line = before.current();
        let col = self.cur_col;
        let row = &mut self.rows[self.cur_row];
        if col <= row.len() {
            let mut joined = text::slice_chars(row.as_slice(), 0, col);
            let mut tail = text::slice_chars(row.as_slice(), col, row.len());
            let mut k: usize = 0;
            assert(joined@ =~= line.take(col as int) + screen::blanks(0));
            while k < n
                invariant
                    k <= n,
                    joined@ == line.take(col as int) + screen::blanks(k as int),
                decreases n - k,
            {
                joined.push(' ');
                k += 1;
                assert(joined@ =~= line.take(col as int) + screen::blanks(k as int));
            }
            joined.append(&mut tail);
            assert(joined@ =~= line.take(col as int) + screen::blanks(n as int) + line.skip(
                col as int,
            ));
            *row = joined;
        }
        proof {
            let want = before.insert_chars(n as int);
            assert(self@.rows =~= want.rows);
            assert(self@ =~= want);
        }
    }

    fn insert_lines(&mut self, n: usize)
        requires
            old(self).valid(),
        ensures
            final(self).valid(),
            final(self)@ == old(self)@.insert_lines(n as int),
    {
        let ghost before = self@;
        let at = self.cur_row;
        let room: usize = self.height - at;
        let k: usize = if n < room {
            n
        } else {
            room
        };
        let mut i: usize = 0;
        assert(before.rows.take(at as int) + screen::empty_rows(0) + before.rows.subrange(
            at as int,
            before.height,
        ) =~= before.rows);
        while i < k
            invariant
                before.valid(),
                i <= k,
                at == before.row,
                at + k <= before.height,
                self@ == (Screen {
                    rows: before.rows.take(at as int) + screen::empty_rows(i as int)
                        + before.rows.subrange(at as int, before.height - i),
                    ..before
                }),
            decreases k - i,
        {
            let ghost r0 = self.rows@;
            assert(self@.rows.len() == before.height);
            // keep the screen at `height` rows; lines pushed past the bottom drop off
            let _ = self.rows.pop();
            self.rows.insert(at, Vec::new());
            i += 1;
            proof {
                assert(text::views(self.rows@) =~= text::views(r0).drop_last().insert(
                    at as int,
                    Seq::empty(),
                ));
                assert(self@.rows =~= before.rows.take(at as int) + screen::empty_rows(i as int)
                    + before.rows.subrange(at as int, before.height - i));
            }
        }
        assert(self@ =~= before.insert_lines(n as int));
    }

    fn delete_lines(&mut self, n: usize)
        requires
            old(self).valid(),
        ensures
            final(self).valid(),
            final(self)@ == old(self)@.delete_lines(n as int),
    {
        let ghost before = self@;
        let at = self.cur_row;
        let room: usize = self.height - at;
        let k: usize = if n < room {
            n
        } else {
            room
        };
        let mut i: usize = 0;
        assert(before.rows.take(at as int) + before.rows.skip(at as int) + screen::empty_rows(0)
            =~= before.rows);
        while i < k
            invariant
                before.valid(),
                i <= k,
                at == before.row,
                at + k <= before.height,
                self@ == (Screen {
                    rows: before.rows.take(at as int) + before.rows.skip(at + i)
                        + screen::empty_rows(i as int),
                    ..before
                }),
            decreases k - i,
        {
            let ghost r0 = self.rows@;
            assert(self@.rows.len() == before.height);
            let _ = self.rows.remove(at);
            // restore the screen height with blank rows at the bottom
            self.rows.push(Vec::new());
            i += 1;
            proof {
                assert(text::views(self.rows@) =~= text::views(r0).remove(at as int).push(
                    Seq::empty(),
                ));
                assert(self@.rows =~= before.rows.take(at as int) + before.rows.skip(at + i)
                    + screen::empty_rows(i as int));
            }
        }
        assert(self@ =~= before.delete_lines(n as int));
    }

    /// Empties the screen and the scrollback and takes the cursor home.
    pub fn reset(&mut self)
        requires
            old(self).valid(),
        ensures
            final(self).valid(),
            final(self)@ == old(self)@.reset(),
    {
        let ghost before = self@;
        self.rows = Self::blank_rows(self.height);
        self.scrollback.clear();
        self.cur_row = 0;
        self.cur_col = 0;
        assert(self@.scrollback =~= Seq::empty());
        assert(self@ =~= before.reset());
    }

    /// The numbers of the parameter string; parts that are no numbers are skipped.
    fn params_list(&self) -> (r: Vec<i64>)
        ensures
            r@.map_values(|x: i64| x as int) == screen::param_numbers(self@.params),
    {
        let parts = text::split_chars(self.params.as_slice(), ';', ':');
        let ghost all = text::views(parts@);
        let mut out: Vec<i64> = Vec::new();
        let mut i: usize = 0;
        assert(all.take(0) =~= Seq::empty());
        assert(out@.map_values(|x: i64| x as int) =~= Seq::empty());
        while i < parts.len()
            invariant
                i <= parts@.len(),
                all == text::views(parts@),
                out@.map_values(|x: i64| x as int) == screen::numbers_among(all.take(i as int)),
            decreases parts@.len() - i,
        {
            let ghost o = out@;
            proof {
                assert(all.take(i + 1).drop_last() =~= all.take(i as int));
                assert(all.take(i + 1).last() == parts@[i as int]@);
            }
            if let Some(v) = text::parse_i64(parts[i].as_slice()) {
                out.push(v);
                assert(out@.map_values(|x: i64| x as int) =~= o.map_values(
                    |x: i64| x as int,
                ).push(v as int));
            }
            i += 1;
        }
        assert(all.take(all.len() as int) =~= all);
        out
    }

    fn param(&self, idx: usize, default: i64) -> (r: i64)
        ensures
            r == self@.param(idx as int, default as int),
            r >= 0,
    {
        let list = self.params_list();
        let ghost numbers = list@.map_values(|x: i64| x as int);
        let v: i64 = if idx < list.len() {
            assert(numbers[idx as int] == list@[idx as int]);
            list[idx]
        } else {
            default
        };
        if v < 0 {
            0
        } else {
            v
        }
    }

    /// The largest `usize` that is not above `n`.
    fn count_of(n: i64) -> (r: usize)
        requires
            n >= 0,
        ensures
            r == screen::least(n as int, usize::MAX as int),
    {
        if n as u64 > usize::MAX as u64 {
            usize::MAX
        } else {
            n as usize
        }
    }

    fn csi_dispatch(&mut self, final_byte: char)
        requires
            old(self).valid(),
        ensures
            final(self).valid(),
            final(self)@ == old(self)@.csi_dispatch(final_byte),
    {
        let ghost before = self@;
        let private = self.params.len() > 0 && self.params[0] == '?';
        let n = self.param(0, 1);
        match final_byte {
            'A' => self.move_cursor(0, -n),
            'B' => self.move_cursor(0, n),
            'C' => self.move_cursor(n, 0),
            'D' => self.move_cursor(-n, 0),
            'E' => {
                self.cur_col = 0;
                assert(self@ =~= before.carriage_return());
                self.move_cursor(0, n);
            },
            'F' => {
                self.cur_col = 0;
                assert(self@ =~= before.carriage_return());
                self.move_cursor(0, -n);
            },
            'G' => self.set_col(n),
            'd' => self.set_row(n),
            'H' | 'f' => {
                let c = self.param(1, 1);
                self.set_row(n);
                self.set_col(c);
            },
            'J' => {
                if !private {
                    let mode = self.param(0, 0);
                    self.erase_display((mode % 256) as u8);
                }
            },
            'K' => {
                if !private {
                    let mode = self.param(0, 0);
                    self.erase_line((mode % 256) as u8);
                }
            },
            'P' => self.delete_chars(Self::count_of(n)),
            '@' => self.insert_chars(Self::count_of(n)),
            'L' => self.insert_lines(Self::count_of(n)),
            'M' => self.delete_lines(Self::count_of(n)),
            // SGR, modes and everything else
            _ => {},
        }
    }

    fn esc(&mut self, c: char)
        requires
            old(self).valid(),
        ensures
            final(self).valid(),
            final(self)@ == old(self)@.esc(c),
    {
        let ghost before = self@;
        match c {
            '[' => {
                self.params.clear();
                self.state = State::Csi;
            },
            ']' => {
                self.osc_buf.clear();
                self.state = State::Osc;
            },
            '(' | ')' | '*' | '+' => self.state = State::Charset,
            'D' => {
                self.line_feed();
                self.state = State::Ground;
            },
            'E' => {
                self.cur_col = 0;
                assert(self@ =~= before.carriage_return());
                self.line_feed();
                self.state = State::Ground;
            },
            'M' => {
                self.reverse_index();
                self.state = State::Ground;
            },
            'c' => {
                self.reset();
                self.state = State::Ground;
            },
            _ => self.state = State::Ground,
        }
        assert(self@ =~= before.esc(c));
    }

    fn csi(&mut self, c: char)
        requires
            old(self).valid(),
        ensures
            final(self).valid(),
            final(self)@ == old(self)@.csi(c),
    {
        let ghost before = self@;
        if '\u{20}' <= c && c <= '\u{3f}' {
            self.params.push(c);
        } else {
            if '\u{40}' <= c && c <= '\u{7e}' {
                self.csi_dispatch(c);
            }
            self.state = State::Ground;
            self.params.clear();
        }
        assert(self@ =~= before.csi(c));
    }

    fn osc(&mut self, c: char)
        requires
            old(self).valid(),
        ensures
            final(self).valid(),
            final(self)@ == old(self)@.osc(c),
    {
        let ghost before = self@;
        if c == '\u{07}' {
            self.state = State::Ground;
            self.osc_buf.clear();
        } else if c == '\u{1b}' {
            // ESC likely starts ST (ESC \)
            self.state = State::Esc;
            self.osc_buf.clear();
        } else {
            self.osc_buf.push(c);
        }
        assert(self@ =~= before.osc(c));
    }

    fn ground(&mut self, c: char)
        requires
            old(self).valid(),
        ensures
            final(self).valid(),
            final(self)@ == old(self)@.ground(c),
    {
        let ghost before = self@;
        match c {
            '\u{1b}' => self.state = State::Esc,
            '\u{07}' | '\0' => {},
            '\u{08}' => self.backspace(),
            '\t' => self.tab(),
            '\n' | '\u{0b}' | '\u{0c}' => self.line_feed(),
            '\r' => self.cur_col = 0,
            _ => self.put(c),
        }
        assert(self@ =~= before.ground(c));
    }

    fn feed_char(&mut self, c: char)
        requires
            old(self).valid(),
        ensures
            final(self).valid(),
            final(self)@ == old(self)@.feed_char(c),
    {
        let ghost before = self@;
        match self.state {
            State::Ground => self.ground(c),
            State::Esc => self.esc(c),
            State::Csi => self.csi(c),
            State::Osc => self.osc(c),
            State::Charset => {
                self.state = State::Ground;
            },
        }
        assert(self@ =~= before.feed_char(c));
    }

    /// Feed raw bytes from the SSH channel. UTF-8 is decoded incrementally; a partial
    /// multibyte sequence at the end is buffered for the next call.
    pub fn feed(&mut self, data: &[u8])
        requires
            old(self).valid(),
        ensures
            final(self).valid(),
            final(self)@ == old(self)@.feed(data@),
    {
        let ghost before = self@;
        let mut bytes: Vec<u8> = Vec::new();
        bytes.append(&mut self.pending);
        bytes.extend_from_slice(data);
        assert(bytes@ =~= before.pending + data@);
        let ghost all = bytes@;
        let ghost start = (Screen { pending: Seq::empty(), ..before });
        assert(self@ =~= start);
        let ghost mut done: Seq<char> = Seq::empty();
        let mut i: usize = 0;
        let mut len: usize = 0;
        proof {
            assert(all.skip(0) =~= all);
            assert(done + screen::decoded(all) =~= screen::decoded(all));
        }
        if bytes.len() > 0 {
            len = unit_len(bytes[0]);
        }
        while i < bytes.len() && len <= bytes.len() - i
            invariant
                i <= bytes@.len(),
                bytes@ == all,
                self.valid(),
                self@ == start.feed_chars(done),
                done + screen::decoded(all.skip(i as int)) == screen::decoded(all),
                screen::undecoded(all.skip(i as int)) == screen::undecoded(all),
                i < all.len() ==> len == screen::unit_len(all[i as int]),
            decreases bytes@.len() - i,
        {
            let ghost rest = all.skip(i as int);
            let piece = vstd::slice::slice_subrange(bytes.as_slice(), i, i + len);
            self.feed_unit(piece);
            proof {
                let chars = screen::unit_text(piece@);
                assert(piece@ =~= rest.take(len as int));
                assert(rest.skip(len as int) =~= all.skip(i + len));
                screen::lemma_feed_chars_concat(start, done, chars);
                assert(done + (chars + screen::decoded(all.skip(i + len))) =~= (done + chars)
                    + screen::decoded(all.skip(i + len)));
                done = done + chars;
            }
            i += len;
            if i < bytes.len() {
                len = unit_len(bytes[i]);
            }
        }
        self.pending = vstd::slice::slice_to_vec(
            vstd::slice::slice_subrange(bytes.as_slice(), i, bytes.len()),
        );
        proof {
            assert(all.subrange(i as int, all.len() as int) =~= all.skip(i as int));
            assert(done =~= screen::decoded(all));
            assert(self@ =~= before.feed(data@));
        }
    }

    /// Feed bytes that are decoded together.
    fn feed_unit(&mut self, bytes: &[u8])
        requires
            old(self).valid(),
        ensures
            final(self).valid(),
            final(self)@ == old(self)@.feed_chars(screen::unit_text(bytes@)),
    {
        match text::utf8_text(bytes) {
            Some(s) => {
                let chars = text::chars_of(s);
                proof {
                    encode_utf8_decode_utf8(chars@);
                }
                self.feed_all(chars.as_slice());
            },
            None => {
                proof {
                    screen::lemma_feed_one(self@, Seq::empty(), REPLACEMENT);
                    assert(Seq::<char>::empty().push(REPLACEMENT) =~= seq![REPLACEMENT]);
                }
                self.feed_char(REPLACEMENT);
            },
        }
    }

    fn feed_all(&mut self, chars: &[char])
        requires
            old(self).valid(),
        ensures
            final(self).valid(),
            final(self)@ == old(self)@.feed_chars(chars@),
    {
        let ghost before = self@;
        let mut k: usize = 0;
        assert(chars@.take(0) =~= Seq::empty());
        while k < chars.len()
            invariant
                k <= chars@.len(),
                self.valid(),
                self@ == before.feed_chars(chars@.take(k as int)),
            decreases chars@.len() - k,
        {
            self.feed_char(chars[k]);
            proof {
                screen::lemma_feed_one(before, chars@.take(k as int), chars@[k as int]);
                assert(chars@.take(k + 1) =~= chars@.take(k as int).push(chars@[k as int]));
            }
            k += 1;
        }
        assert(chars@.take(chars@.len() as int) =~= chars@);
    }

    /// Line `i` of the scrollback and the screen together.
    fn line(&self, i: usize) -> (r: &Vec<char>)
        requires
            self.valid(),
            i < self@.lines().len(),
        ensures
            r@ == self@.lines()[i as int],
    {
        if i < self.scrollback.len() {
            &self.scrollback[i]
        } else {
            &self.rows[i - self.scrollback.len()]
        }
    }

    fn is_blank(row: &Vec<char>) -> (r: bool)
        ensures
            r == screen::is_blank(row@),
    {
        let mut i: usize = 0;
        while i < row.len()
            invariant
                i <= row@.len(),
                forall|j: int| 0 <= j < i ==> #[trigger] row@[j] == ' ',
            decreases row@.len() - i,
        {
            if row[i] != ' ' {
                return false;
            }
            i += 1;
        }
        true
    }

    /// Render the buffer as text: the scrollback followed by the screen, trimming
    /// trailing white space per line and dropping trailing blank lines. Capped to the
    /// last `RENDER_ROWS` lines.
    pub fn render(&self) -> (r: String)
        requires
            self.valid(),
        ensures
            r@ == self@.render(),
    {
        let ghost lines = self@.lines();
        let mut end: usize = self.scrollback.len() + self.rows.len();
        assert(lines.take(end as int) =~= lines);
        // Trim trailing blank lines (whether in scrollback or on the visible screen)
        // so the bottom of the rendered text is always real content.
        while end > 0 && Self::is_blank(self.line(end - 1))
            invariant
                self.valid(),
                lines == self@.lines(),
                end <= lines.len(),
                screen::without_trailing_blanks(lines.take(end as int))
                    == screen::without_trailing_blanks(lines),
            decreases end,
        {
            assert(lines.take(end as int).drop_last() =~= lines.take(end - 1));
            assert(lines.take(end as int).last() == lines[end - 1]);
            end -= 1;
        }
        let start: usize = if end > RENDER_ROWS {
            end - RENDER_ROWS
        } else {
            0
        };
        let ghost shown = screen::keep_last(
            screen::without_trailing_blanks(lines),
            RENDER_ROWS as int,
        );
        proof {
            if end > 0 {
                assert(lines.take(end as int).last() == lines[end - 1]);
            }
            assert(screen::without_trailing_blanks(lines) == lines.take(end as int));
            assert(shown =~= lines.subrange(start as int, end as int));
        }
        let mut out = String::new();
        let mut i: usize = start;
        assert(shown.take(0) =~= Seq::empty());
        while i < end
            invariant
                self.valid(),
                lines == self@.lines(),
                start <= i <= end <= lines.len(),
                shown == lines.subrange(start as int, end as int),
                out@ == screen::join_lines(shown.take(i - start)),
            decreases end - i,
        {
            let ghost k = i - start;
            proof {
                assert(shown.take(k + 1).drop_last() =~= shown.take(k));
                assert(shown.take(k + 1).last() == lines[i as int]);
            }
            if i > start {
                out.push('\n');
            }
            let ghost before = out@;
            let t = text::trim_end_chars(self.line(i).as_slice());
            let t = text::string_of(t.as_slice());
            out.push_str(t.as_str());
            proof {
                if i == start {
                    assert(out@ =~= t@);
                }
            }
            i += 1;
        }
        assert(shown.take(shown.len() as int) =~= shown);
        out
    }
}

/// How many bytes a character takes, by its first byte; zero for a byte that begins
/// no character.
fn utf8_len(b: u8) -> (r: usize)
    ensures
        r == screen::utf8_width(b),
{
    if b < 0x80 {
        1
    } else if 0xc0 <= b && b <= 0xdf {
        2
    } else if 0xe0 <= b && b <= 0xef {
        3
    } else if 0xf0 <= b && b <= 0xf7 {
        4
    } else {
        0
    }
}

/// How many bytes are decoded together, by the first of them.
fn unit_len(b: u8) -> (r: usize)
    ensures
        r == screen::unit_len(b),
{
    let n = utf8_len(b);
    if n == 0 {
        1
    } else {
        n
    }
}

} // verus!
