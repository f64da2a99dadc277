//! What the bytes of a remote shell do to a terminal, cell by cell: text, control characters
//! and escape sequences, and what is shown of them.

use vstd::prelude::*;
use vstd::utf8::*;

use crate::screen;
use crate::screen::{Screen, State};
use crate::text;

verus! {

// ---------------------------------------------------------------------------
// Parameters
// ---------------------------------------------------------------------------

proof fn lemma_numeral(n: nat)
    ensures
        text::decimal(n).len() > 0,
        !text::decimal(n).contains(';'),
        !text::decimal(n).contains(':'),
        text::decimal(n)[0] != '?',
        forall|i: int|
            0 <= i < text::decimal(n).len() ==> '\u{20}' <= #[trigger] text::decimal(n)[i]
                && text::decimal(n)[i] <= '\u{3f}',
{
    text::lemma_decimal_digits(n);
    let d = text::decimal(n);
    if d.contains(';') {
        let i = choose|i: int| 0 <= i < d.len() && d[i] == ';';
        assert('0' <= d[i] <= '9');
    }
    if d.contains(':') {
        let i = choose|i: int| 0 <= i < d.len() && d[i] == ':';
        assert('0' <= d[i] <= '9');
    }
}

proof fn lemma_one_number(n: nat)
    requires
        n <= i64::MAX,
    ensures
        screen::param_numbers(text::decimal(n)) == seq![n as int],
{
    let d = text::decimal(n);
    lemma_numeral(n);
    text::law_one_part(d, ';', ':');
    text::law_numbers_are_read(n, i64::MIN as int, i64::MAX as int);
    let parts = seq![d];
    assert(parts.drop_last() =~= Seq::empty());
    assert(screen::numbers_among(parts.drop_last()) == Seq::<int>::empty());
    assert(Seq::<int>::empty().push(n as int) =~= seq![n as int]);
}

proof fn lemma_two_numbers(m: nat, n: nat)
    requires
        m <= i64::MAX,
        n <= i64::MAX,
    ensures
        screen::param_numbers(text::decimal(m) + seq![';'] + text::decimal(n)) == seq![
            m as int,
            n as int,
        ],
{
    let (a, b) = (text::decimal(m), text::decimal(n));
    lemma_numeral(m);
    lemma_numeral(n);
    text::law_one_part(a, ';', ':');
    text::law_one_part(b, ';', ':');
    text::law_parts_around_a_separator(a, ';', b, ';', ':');
    lemma_one_number(m);
    text::law_numbers_are_read(n, i64::MIN as int, i64::MAX as int);
    let parts = seq![a] + seq![b];
    assert(parts.drop_last() =~= seq![a]);
    assert(seq![m as int].push(n as int) =~= seq![m as int, n as int]);
}

proof fn lemma_no_number()
    ensures
        screen::param_numbers(Seq::empty()) == Seq::<int>::empty(),
{
    let parts = text::split_parts(Seq::empty(), ';', ':');
    assert(parts == seq![Seq::<char>::empty()]);
    assert(parts.drop_last() =~= Seq::empty());
    assert(screen::numbers_among(parts.drop_last()) == Seq::<int>::empty());
    text::law_other_texts_are_no_numbers(parts.last(), i64::MIN as int, i64::MAX as int, 0);
}

/// Whether a parameter string gives the count `n`: its numeral, or nothing where it is one.
pub open spec fn counts(ps: Seq<char>, n: nat) -> bool {
    n <= i64::MAX && (ps == text::decimal(n) || ps.len() == 0 && n == 1)
}

/// Whether a parameter string gives the mode `n`: its numeral, or nothing where it is zero.
pub open spec fn selects(ps: Seq<char>, n: nat) -> bool {
    n <= i64::MAX && (ps == text::decimal(n) || ps.len() == 0 && n == 0)
}

proof fn lemma_counts(ps: Seq<char>, n: nat)
    requires
        counts(ps, n),
    ensures
        screen::param_of(ps, 0, 1) == n,
        screen::param_of(ps, 1, 1) == 1,
        forall|i: int| 0 <= i < ps.len() ==> '\u{20}' <= #[trigger] ps[i] && ps[i] <= '\u{3f}',
{
    if ps.len() == 0 {
        lemma_no_number();
        assert(ps =~= Seq::empty());
        lemma_numeral(n);
    } else {
        lemma_one_number(n);
        lemma_numeral(n);
    }
}

proof fn lemma_selects(ps: Seq<char>, n: nat)
    requires
        selects(ps, n),
    ensures
        screen::param_of(ps, 0, 0) == n,
        ps.len() > 0 ==> ps[0] != '?',
        forall|i: int| 0 <= i < ps.len() ==> '\u{20}' <= #[trigger] ps[i] && ps[i] <= '\u{3f}',
{
    lemma_numeral(n);
    if ps.len() == 0 {
        lemma_no_number();
        assert(ps =~= Seq::empty());
    } else {
        lemma_one_number(n);
    }
}

// ---------------------------------------------------------------------------
// The cursor
// ---------------------------------------------------------------------------

/// ESC [ n A moves the cursor up by n rows and ESC [ n B down, but not off the screen.
/// Nothing else changes; a cursor behind the last column goes onto it.
pub proof fn law_cursor_up_and_down(t: Screen, ps: Seq<char>, n: nat)
    requires
        t.valid(),
        t.state == State::Ground,
        counts(ps, n),
    ensures
        ({
            let col = if t.col < t.cols {
                t.col
            } else if t.cols > 0 {
                t.cols - 1
            } else {
                0
            };
            &&& t.feed_chars(seq!['\u{1b}', '['] + ps + seq!['A']) == (Screen {
                row: if n <= t.row {
                    t.row - n
                } else {
                    0
                },
                col,
                params: Seq::empty(),
                ..t
            })
            &&& t.feed_chars(seq!['\u{1b}', '['] + ps + seq!['B']) == (Screen {
                row: if t.row + n < t.height {
                    t.row + n
                } else {
                    t.height - 1
                },
                col,
                params: Seq::empty(),
                ..t
            })
        }),
{
    lemma_counts(ps, n);
    screen::law_control_sequence(t, ps, 'A');
    screen::law_control_sequence(t, ps, 'B');
}

/// ESC [ n C moves the cursor right by n columns and ESC [ n D left, but not off the screen.
/// Nothing else changes.
pub proof fn law_cursor_right_and_left(t: Screen, ps: Seq<char>, n: nat)
    requires
        t.valid(),
        t.state == State::Ground,
        t.cols > 0,
        counts(ps, n),
    ensures
        t.feed_chars(seq!['\u{1b}', '['] + ps + seq!['C']) == (Screen {
            col: if t.col + n < t.cols {
                t.col + n
            } else {
                t.cols - 1
            },
            params: Seq::empty(),
            ..t
        }),
        t.feed_chars(seq!['\u{1b}', '['] + ps + seq!['D']) == (Screen {
            col: if t.col < n {
                0
            } else if t.col - n < t.cols {
                t.col - n
            } else {
                t.cols - 1
            },
            params: Seq::empty(),
            ..t
        }),
{
    lemma_counts(ps, n);
    screen::law_control_sequence(t, ps, 'C');
    screen::law_control_sequence(t, ps, 'D');
}

/// ESC [ n E and ESC [ n F move the cursor down and up by n rows, to the first column.
pub proof fn law_cursor_to_other_lines(t: Screen, ps: Seq<char>, n: nat)
    requires
        t.valid(),
        t.state == State::Ground,
        counts(ps, n),
    ensures
        t.feed_chars(seq!['\u{1b}', '['] + ps + seq!['E']) == (Screen {
            row: if t.row + n < t.height {
                t.row + n
            } else {
                t.height - 1
            },
            col: 0,
            params: Seq::empty(),
            ..t
        }),
        t.feed_chars(seq!['\u{1b}', '['] + ps + seq!['F']) == (Screen {
            row: if n <= t.row {
                t.row - n
            } else {
                0
            },
            col: 0,
            params: Seq::empty(),
            ..t
        }),
{
    lemma_counts(ps, n);
    screen::law_control_sequence(t, ps, 'E');
    screen::law_control_sequence(t, ps, 'F');
}

/// ESC [ n G puts the cursor into column n and ESC [ n d into row n, counted from one, or the
/// last one where there are fewer.
pub proof fn law_cursor_to_a_column_or_row(t: Screen, ps: Seq<char>, n: nat)
    requires
        t.valid(),
        t.state == State::Ground,
        t.cols > 0,
        counts(ps, n),
        n > 0,
    ensures
        t.feed_chars(seq!['\u{1b}', '['] + ps + seq!['G']) == (Screen {
            col: if n <= t.cols {
                n - 1
            } else {
                t.cols - 1
            },
            params: Seq::empty(),
            ..t
        }),
        t.feed_chars(seq!['\u{1b}', '['] + ps + seq!['d']) == (Screen {
            row: if n <= t.height {
                n - 1
            } else {
                t.height - 1
            },
            params: Seq::empty(),
            ..t
        }),
{
    lemma_counts(ps, n);
    screen::law_control_sequence(t, ps, 'G');
    screen::law_control_sequence(t, ps, 'd');
}

/// ESC [ m ; n H puts the cursor into row m and column n, counted from one, or the last ones
/// where there are fewer; f does what H does.
pub proof fn law_cursor_to_a_place(t: Screen, m: nat, n: nat, c: char)
    requires
        t.valid(),
        t.state == State::Ground,
        t.cols > 0,
        0 < m <= i64::MAX,
        0 < n <= i64::MAX,
        c == 'H' || c == 'f',
    ensures
        t.feed_chars(
            seq!['\u{1b}', '['] + (text::decimal(m) + seq![';'] + text::decimal(n)) + seq![c],
        ) == (Screen {
            row: if m <= t.height {
                m - 1
            } else {
                t.height - 1
            },
            col: if n <= t.cols {
                n - 1
            } else {
                t.cols - 1
            },
            params: Seq::empty(),
            ..t
        }),
{
    let (a, b) = (text::decimal(m), text::decimal(n));
    let ps = a + seq![';'] + b;
    lemma_numeral(m);
    lemma_numeral(n);
    lemma_two_numbers(m, n);
    assert forall|i: int| 0 <= i < ps.len() implies '\u{20}' <= #[trigger] ps[i] && ps[i]
        <= '\u{3f}' by {
        if i < a.len() {
            assert(ps[i] == a[i]);
        } else if i > a.len() {
            assert(ps[i] == b[i - a.len() - 1]);
        }
    }
    screen::law_control_sequence(t, ps, c);
}

/// ESC [ H takes the cursor home, and ESC [ m H to the beginning of row m.
pub proof fn law_cursor_home(t: Screen, ps: Seq<char>, m: nat, c: char)
    requires
        t.valid(),
        t.state == State::Ground,
        counts(ps, m),
        m > 0,
        c == 'H' || c == 'f',
    ensures
        t.feed_chars(seq!['\u{1b}', '['] + ps + seq![c]) == (Screen {
            row: if m <= t.height {
                m - 1
            } else {
                t.height - 1
            },
            col: 0,
            params: Seq::empty(),
            ..t
        }),
{
    lemma_counts(ps, m);
    screen::law_control_sequence(t, ps, c);
}

/// A zero where rows or columns are counted from one means the first.
pub proof fn law_zero_is_the_first(t: Screen)
    requires
        t.valid(),
        t.state == State::Ground,
    ensures
        t.feed_chars(seq!['\u{1b}', '[', '0', 'G']) == (Screen { col: 0, params: Seq::empty(), ..t }),
        t.feed_chars(seq!['\u{1b}', '[', '0', 'd']) == (Screen { row: 0, params: Seq::empty(), ..t }),
{
    let ps = seq!['0'];
    text::law_decimal_is_positional(0, 0);
    assert(text::decimal(0) =~= ps);
    lemma_counts(ps, 0);
    screen::law_control_sequence(t, ps, 'G');
    screen::law_control_sequence(t, ps, 'd');
    assert(seq!['\u{1b}', '['] + ps + seq!['G'] =~= seq!['\u{1b}', '[', '0', 'G']);
    assert(seq!['\u{1b}', '['] + ps + seq!['d'] =~= seq!['\u{1b}', '[', '0', 'd']);
}

// ---------------------------------------------------------------------------
// Erasing, inserting, deleting
// ---------------------------------------------------------------------------

/// Whether two terminals differ in the cells of the row under the cursor only.
pub open spec fn only_row_differs(t: Screen, u: Screen) -> bool {
    &&& u == (Screen { rows: u.rows, params: Seq::empty(), ..t })
    &&& u.rows.len() == t.rows.len()
    &&& forall|i: int| 0 <= i < t.rows.len() && i != t.row ==> #[trigger] u.rows[i] == t.rows[i]
}

/// ESC [ K erases the row from the cursor on, ESC [ 1 K up to and with the cursor, and
/// ESC [ 2 K all of it. Nothing else changes.
pub proof fn law_erase_in_line(t: Screen, ps: Seq<char>, mode: nat)
    requires
        t.valid(),
        t.state == State::Ground,
        selects(ps, mode),
        mode <= 2,
    ensures
        ({
            let u = t.feed_chars(seq!['\u{1b}', '['] + ps + seq!['K']);
            let (old, new) = (t.rows[t.row], u.rows[t.row]);
            &&& only_row_differs(t, u)
            &&& mode == 2 ==> new.len() == 0
            &&& mode < 2 ==> new.len() == old.len()
            &&& mode == 0 ==> forall|j: int|
                0 <= j < old.len() ==> #[trigger] new[j] == if j < t.col {
                    old[j]
                } else {
                    ' '
                }
            &&& mode == 1 ==> forall|j: int|
                0 <= j < old.len() ==> #[trigger] new[j] == if j > t.col {
                    old[j]
                } else {
                    ' '
                }
        }),
{
    lemma_selects(ps, mode);
    screen::law_control_sequence(t, ps, 'K');
}

/// ESC [ J erases the screen from the cursor on, and ESC [ 1 J up to and with the cursor. The
/// cursor stays, and so does the scrollback.
pub proof fn law_erase_part_of_the_display(t: Screen, ps: Seq<char>, mode: nat)
    requires
        t.valid(),
        t.state == State::Ground,
        selects(ps, mode),
        mode <= 1,
    ensures
        ({
            let u = t.feed_chars(seq!['\u{1b}', '['] + ps + seq!['J']);
            let (old, new) = (t.rows[t.row], u.rows[t.row]);
            &&& u == (Screen { rows: u.rows, params: Seq::empty(), ..t })
            &&& u.rows.len() == t.rows.len()
            &&& new.len() == old.len()
            &&& mode == 0 ==> {
                &&& forall|i: int| 0 <= i < t.row ==> #[trigger] u.rows[i] == t.rows[i]
                &&& forall|i: int| t.row < i < t.height ==> (#[trigger] u.rows[i]).len() == 0
                &&& forall|j: int|
                    0 <= j < old.len() ==> #[trigger] new[j] == if j < t.col {
                        old[j]
                    } else {
                        ' '
                    }
            }
            &&& mode == 1 ==> {
                &&& forall|i: int| t.row < i < t.height ==> #[trigger] u.rows[i] == t.rows[i]
                &&& forall|i: int| 0 <= i < t.row ==> (#[trigger] u.rows[i]).len() == 0
                &&& forall|j: int|
                    0 <= j < old.len() ==> #[trigger] new[j] == if j > t.col {
                        old[j]
                    } else {
                        ' '
                    }
            }
        }),
{
    lemma_selects(ps, mode);
    screen::law_control_sequence(t, ps, 'J');
}

/// ESC [ 2 J and ESC [ 3 J erase the whole screen and take the cursor home; the scrollback
/// stays.
pub proof fn law_erase_the_display(t: Screen, mode: nat)
    requires
        t.valid(),
        t.state == State::Ground,
        mode == 2 || mode == 3,
    ensures
        ({
            let u = t.feed_chars(seq!['\u{1b}', '['] + text::decimal(mode) + seq!['J']);
            &&& u == (Screen { rows: u.rows, row: 0, col: 0, params: Seq::empty(), ..t })
            &&& u.rows.len() == t.height
            &&& forall|i: int| 0 <= i < t.height ==> (#[trigger] u.rows[i]).len() == 0
        }),
{
    lemma_selects(text::decimal(mode), mode);
    screen::law_control_sequence(t, text::decimal(mode), 'J');
}

/// ESC [ n P deletes n characters at the cursor; those behind them move left.
pub proof fn law_delete_characters(t: Screen, ps: Seq<char>, n: nat)
    requires
        t.valid(),
        t.state == State::Ground,
        counts(ps, n),
        n <= usize::MAX,
    ensures
        ({
            let u = t.feed_chars(seq!['\u{1b}', '['] + ps + seq!['P']);
            let (old, new) = (t.rows[t.row], u.rows[t.row]);
            &&& only_row_differs(t, u)
            &&& new.len() == if t.col + n <= old.len() {
                old.len() - n
            } else if t.col <= old.len() {
                t.col
            } else {
                old.len() as int
            }
            &&& forall|j: int| 0 <= j < t.col && j < old.len() ==> #[trigger] new[j] == old[j]
            &&& forall|j: int| t.col <= j && j + n < old.len() ==> #[trigger] new[j] == old[j + n]
        }),
{
    lemma_counts(ps, n);
    screen::law_control_sequence(t, ps, 'P');
    let u = t.feed_chars(seq!['\u{1b}', '['] + ps + seq!['P']);
    let old = t.rows[t.row];
    if t.col < old.len() {
        let k = screen::least(t.col + n, old.len() as int);
        assert(u.rows[t.row] == old.take(t.col) + old.skip(k));
    }
}

/// ESC [ n @ inserts n blanks at the cursor; what stands there and behind moves right.
pub proof fn law_insert_characters(t: Screen, ps: Seq<char>, n: nat)
    requires
        t.valid(),
        t.state == State::Ground,
        counts(ps, n),
        n <= usize::MAX,
        t.col <= t.rows[t.row].len(),
    ensures
        ({
            let u = t.feed_chars(seq!['\u{1b}', '['] + ps + seq!['@']);
            let (old, new) = (t.rows[t.row], u.rows[t.row]);
            &&& only_row_differs(t, u)
            &&& new.len() == old.len() + n
            &&& forall|j: int|
                0 <= j < new.len() ==> #[trigger] new[j] == if j < t.col {
                    old[j]
                } else if j < t.col + n {
                    ' '
                } else {
                    old[j - n]
                }
        }),
{
    lemma_counts(ps, n);
    screen::law_control_sequence(t, ps, '@');
}

/// ESC [ n L inserts n empty rows at the cursor; what stands there and below moves down, and
/// what moves off the bottom is lost.
pub proof fn law_insert_rows(t: Screen, ps: Seq<char>, n: nat)
    requires
        t.valid(),
        t.state == State::Ground,
        counts(ps, n),
        n <= usize::MAX,
    ensures
        ({
            let u = t.feed_chars(seq!['\u{1b}', '['] + ps + seq!['L']);
            &&& u == (Screen { rows: u.rows, params: Seq::empty(), ..t })
            &&& u.rows.len() == t.height
            &&& forall|i: int| 0 <= i < t.row ==> #[trigger] u.rows[i] == t.rows[i]
            &&& forall|i: int|
                t.row <= i < t.height && i < t.row + n ==> (#[trigger] u.rows[i]).len() == 0
            &&& forall|i: int| t.row + n <= i < t.height ==> #[trigger] u.rows[i] == t.rows[i - n]
        }),
{
    lemma_counts(ps, n);
    screen::law_control_sequence(t, ps, 'L');
}

/// ESC [ n M deletes n rows at the cursor; what stands below moves up, and empty rows come in
/// at the bottom.
pub proof fn law_delete_rows(t: Screen, ps: Seq<char>, n: nat)
    requires
        t.valid(),
        t.state == State::Ground,
        counts(ps, n),
        n <= usize::MAX,
    ensures
        ({
            let u = t.feed_chars(seq!['\u{1b}', '['] + ps + seq!['M']);
            &&& u == (Screen { rows: u.rows, params: Seq::empty(), ..t })
            &&& u.rows.len() == t.height
            &&& forall|i: int| 0 <= i < t.row ==> #[trigger] u.rows[i] == t.rows[i]
            &&& forall|i: int| t.row <= i && i + n < t.height ==> #[trigger] u.rows[i] == t.rows[i
                + n]
            &&& forall|i: int|
                t.row <= i < t.height && t.height <= i + n ==> (#[trigger] u.rows[i]).len() == 0
        }),
{
    lemma_counts(ps, n);
    screen::law_control_sequence(t, ps, 'M');
}

/// Other control sequences change nothing, and neither do the private forms of those that
/// erase.
pub proof fn law_other_control_sequences_do_nothing(t: Screen, ps: Seq<char>, c: char)
    requires
        t.state == State::Ground,
        forall|i: int| 0 <= i < ps.len() ==> '\u{20}' <= #[trigger] ps[i] && ps[i] <= '\u{3f}',
        ({
            ||| 'g' <= c && c <= '~'
            ||| c == 'a' || c == 'b' || c == 'c' || c == 'e'
            ||| c == 'I' || c == 'N' || c == 'O'
            ||| 'Q' <= c && c <= '`'
            ||| (c == 'J' || c == 'K') && ps.len() > 0 && ps[0] == '?'
        }),
    ensures
        t.feed_chars(seq!['\u{1b}', '['] + ps + seq![c]) == (Screen { params: Seq::empty(), ..t }),
{
    screen::law_control_sequence(t, ps, c);
}

// ---------------------------------------------------------------------------
// Control characters and short escape sequences
// ---------------------------------------------------------------------------

proof fn lemma_feed_pair(t: Screen, c: char, d: char)
    ensures
        t.feed_chars(seq![c]) == t.feed_char(c),
        t.feed_chars(seq![c, d]) == t.feed_char(c).feed_char(d),
{
    assert(seq![c].drop_last() =~= Seq::empty());
    assert(t.feed_chars(seq![c].drop_last()) == t);
    assert(seq![c, d].drop_last() =~= seq![c]);
}

/// Whether `u` is `t` after the cursor went down a row: onto the next one, or at the bottom
/// with everything moved up by a row. The row that leaves the screen is the newest one of
/// the scrollback then, which loses its oldest one where there would be too many.
pub open spec fn went_down(t: Screen, u: Screen) -> bool {
    if t.row + 1 < t.height {
        u == (Screen { row: t.row + 1, ..t })
    } else {
        let all = t.scrollback.push(t.rows[0]);
        &&& u == (Screen { rows: u.rows, scrollback: u.scrollback, ..t })
        &&& u.rows.len() == t.rows.len()
        &&& forall|i: int| 0 <= i < t.height - 1 ==> #[trigger] u.rows[i] == t.rows[i + 1]
        &&& u.rows[t.height - 1].len() == 0
        &&& u.scrollback == if t.scrollback.len() + t.height < 4000 {
            all
        } else {
            all.skip(1)
        }
    }
}

proof fn lemma_went_down(t: Screen)
    requires
        t.valid(),
    ensures
        went_down(t, t.line_feed()),
{
    let u = t.line_feed();
    if t.row + 1 >= t.height {
        let all = t.scrollback.push(t.rows[0]);
        assert(u == (Screen { rows: u.rows, scrollback: u.scrollback, ..t }));
        if t.scrollback.len() + t.height >= 4000 {
            assert(u.scrollback =~= all.skip(1));
        }
    }
}

/// The control characters: line feeds go down a row in the same column, a carriage return
/// goes to the first column, a backspace goes left without erasing, and bells and zeros do
/// nothing.
pub proof fn law_control_characters(t: Screen, c: char)
    requires
        t.valid(),
        t.state == State::Ground,
    ensures
        c == '\n' || c == '\u{b}' || c == '\u{c}' ==> went_down(t, t.feed_chars(seq![c])),
        t.feed_chars(seq!['\r']) == (Screen { col: 0, ..t }),
        t.feed_chars(seq!['\u{8}']) == (Screen {
            col: if t.col > 0 {
                t.col - 1
            } else {
                0
            },
            ..t
        }),
        t.feed_chars(seq!['\u{7}']) == t,
        t.feed_chars(seq!['\0']) == t,
{
    lemma_went_down(t);
    lemma_one_control(t, c);
    lemma_one_control(t, '\r');
    lemma_one_control(t, '\u{8}');
    lemma_one_control(t, '\u{7}');
    lemma_one_control(t, '\0');
}

#[verifier::spinoff_prover]
proof fn lemma_one_control(t: Screen, c: char)
    requires
        t.state == State::Ground,
    ensures
        c == '\n' || c == '\u{b}' || c == '\u{c}' ==> t.feed_chars(seq![c]) == t.line_feed(),
        c == '\r' ==> t.feed_chars(seq![c]) == (Screen { col: 0, ..t }),
        c == '\u{8}' ==> t.feed_chars(seq![c]) == (Screen {
            col: if t.col > 0 {
                t.col - 1
            } else {
                0
            },
            ..t
        }),
        c == '\u{7}' || c == '\0' ==> t.feed_chars(seq![c]) == t,
{
    lemma_feed_pair(t, c, c);
    assert(t.feed_char(c) == t.ground(c));
    if c == '\u{8}' {
        assert(t.ground(c) =~= (Screen {
            col: if t.col > 0 {
                t.col - 1
            } else {
                0
            },
            ..t
        }));
    }
}

/// ESC D goes down a row, ESC E too but to its first column, and ESC M goes up a row: at the
/// top everything moves down instead and the bottom row is lost.
pub proof fn law_index_sequences(t: Screen)
    requires
        t.valid(),
        t.state == State::Ground,
    ensures
        went_down(t, t.feed_chars(seq!['\u{1b}', 'D'])),
        went_down((Screen { col: 0, ..t }), t.feed_chars(seq!['\u{1b}', 'E'])),
        t.row > 0 ==> t.feed_chars(seq!['\u{1b}', 'M']) == (Screen { row: t.row - 1, ..t }),
        t.row == 0 ==> {
            let u = t.feed_chars(seq!['\u{1b}', 'M']);
            &&& u == (Screen { rows: u.rows, ..t })
            &&& u.rows.len() == t.rows.len()
            &&& u.rows[0].len() == 0
            &&& forall|i: int| 0 < i < t.height ==> #[trigger] u.rows[i] == t.rows[i - 1]
        },
{
    lemma_feed_pair(t, '\u{1b}', 'D');
    lemma_feed_pair(t, '\u{1b}', 'E');
    lemma_feed_pair(t, '\u{1b}', 'M');
    lemma_went_down(t);
    lemma_went_down(Screen { col: 0, ..t });
    let d = t.feed_chars(seq!['\u{1b}', 'D']);
    assert(d =~= t.line_feed());
    let e = t.feed_chars(seq!['\u{1b}', 'E']);
    assert(e =~= (Screen { col: 0, ..t }).line_feed());
    if t.row > 0 {
        assert(t.feed_chars(seq!['\u{1b}', 'M']) =~= (Screen { row: t.row - 1, ..t }));
    } else {
        let u = t.feed_chars(seq!['\u{1b}', 'M']);
        assert(u =~= (Screen { rows: u.rows, ..t }));
    }
}

/// ESC c empties the screen and the scrollback and takes the cursor home; the size stays.
pub proof fn law_reset_sequence(t: Screen)
    requires
        t.valid(),
        t.state == State::Ground,
    ensures
        ({
            let u = t.feed_chars(seq!['\u{1b}', 'c']);
            &&& u == (Screen { rows: u.rows, scrollback: Seq::empty(), row: 0, col: 0, ..t })
            &&& u.rows.len() == t.height
            &&& forall|i: int| 0 <= i < t.height ==> (#[trigger] u.rows[i]).len() == 0
            &&& t.reset() == u
        }),
{
    lemma_feed_pair(t, '\u{1b}', 'c');
    let u = t.feed_chars(seq!['\u{1b}', 'c']);
    assert(u =~= (Screen { rows: u.rows, scrollback: Seq::empty(), row: 0, col: 0, ..t }));
    assert(t.reset() =~= u);
}

/// Other escape sequences change nothing: those that name a character set, and those without
/// a meaning here.
pub proof fn law_other_escape_sequences_do_nothing(t: Screen, c: char, d: char)
    requires
        t.state == State::Ground,
    ensures
        c != '[' && c != ']' && c != '(' && c != ')' && c != '*' && c != '+' && c != 'D' && c != 'E'
            && c != 'M' && c != 'c' ==> t.feed_chars(seq!['\u{1b}', c]) == t,
        c == '(' || c == ')' || c == '*' || c == '+' ==> t.feed_chars(seq!['\u{1b}', c, d]) == t,
{
    lemma_feed_pair(t, '\u{1b}', c);
    assert(seq!['\u{1b}', c, d].drop_last() =~= seq!['\u{1b}', c]);
    if c == '(' || c == ')' || c == '*' || c == '+' {
        assert(t.feed_chars(seq!['\u{1b}', c, d]) =~= t);
    } else if c != '[' && c != ']' && c != 'D' && c != 'E' && c != 'M' && c != 'c' {
        assert(t.feed_chars(seq!['\u{1b}', c]) =~= t);
    }
}

/// A system command ends with ESC \ as well as with a bell, and leaves no trace either way.
pub proof fn law_system_commands_end_either_way(t: Screen, s: Seq<char>)
    requires
        t.state == State::Ground,
        t.osc.len() == 0,
        !s.contains('\u{07}'),
        !s.contains('\u{1b}'),
    ensures
        t.feed_chars(seq!['\u{1b}', ']'] + s + seq!['\u{07}']) == t,
        t.feed_chars(seq!['\u{1b}', ']'] + s + seq!['\u{1b}', '\\']) == t,
{
    screen::law_system_commands_are_dropped(t, s);
    screen::lemma_command_collected(t, s);
    let front = seq!['\u{1b}', ']'] + s;
    let all = front + seq!['\u{1b}', '\\'];
    assert(all =~= front + seq!['\u{1b}', '\\']);
    screen::lemma_feed_chars_concat(t, front, seq!['\u{1b}', '\\']);
    lemma_command_ended(t, Screen { state: State::Osc, osc: s, ..t });
}

#[verifier::spinoff_prover]
proof fn lemma_command_ended(t: Screen, u: Screen)
    requires
        t.state == State::Ground,
        t.osc.len() == 0,
        u == (Screen { state: State::Osc, osc: u.osc, ..t }),
    ensures
        u.feed_chars(seq!['\u{1b}', '\\']) == t,
{
    lemma_feed_pair(u, '\u{1b}', '\\');
    let v = u.feed_char('\u{1b}');
    assert(v == u.osc('\u{1b}'));
    assert(v.feed_char('\\') == v.esc('\\'));
    assert(v.esc('\\') =~= t);
}

// ---------------------------------------------------------------------------
// Text
// ---------------------------------------------------------------------------

/// Whether a character is text: none of the control characters with a meaning.
pub open spec fn is_text(c: char) -> bool {
    &&& c != '\u{1b}' && c != '\u{7}' && c != '\0' && c != '\u{8}' && c != '\t'
    &&& c != '\n' && c != '\u{b}' && c != '\u{c}' && c != '\r'
}

/// Text is written from the cursor on, over what stands there, as far as the row goes. The
/// cursor ends behind it. Nothing else changes; a row that ends before the cursor is filled
/// up with blanks.
pub proof fn law_text_is_written(t: Screen, s: Seq<char>)
    requires
        t.valid(),
        t.state == State::Ground,
        forall|i: int| 0 <= i < s.len() ==> is_text(#[trigger] s[i]),
        0 < s.len(),
        t.col + s.len() <= t.cols,
    ensures
        ({
            let u = t.feed_chars(s);
            let (old, new) = (t.rows[t.row], u.rows[t.row]);
            &&& u.valid()
            &&& u == (Screen { rows: u.rows, col: t.col + s.len(), ..t })
            &&& u.rows.len() == t.rows.len()
            &&& forall|i: int| 0 <= i < t.height && i != t.row ==> #[trigger] u.rows[i] == t.rows[i]
            &&& new.len() == if old.len() > t.col + s.len() {
                old.len() as int
            } else {
                t.col + s.len()
            }
            &&& forall|j: int|
                0 <= j < new.len() ==> #[trigger] new[j] == if t.col <= j < t.col + s.len() {
                    s[j - t.col]
                } else if j < old.len() {
                    old[j]
                } else {
                    ' '
                }
        }),
    decreases s.len(),
{
    let front = s.drop_last();
    let f = t.feed_chars(front);
    assert(is_text(s[s.len() - 1]));
    if front.len() == 0 {
        assert(f == t);
    } else {
        assert forall|i: int| 0 <= i < front.len() implies is_text(#[trigger] front[i]) by {
            assert(is_text(s[i]));
        }
        law_text_is_written(t, front);
    }
    let u = t.feed_chars(s);
    assert(u == f.put(s.last()));
    let old = t.rows[t.row];
    let (mid, new) = (f.rows[t.row], u.rows[t.row]);
    assert(u =~= (Screen { rows: u.rows, col: t.col + s.len(), ..t }));
    assert forall|j: int| 0 <= j < new.len() implies #[trigger] new[j] == if t.col <= j < t.col
        + s.len() {
        s[j - t.col]
    } else if j < old.len() {
        old[j]
    } else {
        ' '
    } by {
        if j == t.col + s.len() - 1 {
            assert(new[j] == s.last());
        } else if j < mid.len() {
            assert(new[j] == mid[j]);
            if t.col <= j {
                if front.len() > 0 && j < t.col + front.len() {
                    assert(front[j - t.col] == s[j - t.col]);
                }
            }
        }
    }
}

/// Text at the right edge goes on at the beginning of the next row, as it would behind a line
/// break.
pub proof fn law_text_wraps(t: Screen, c: char)
    requires
        t.valid(),
        t.state == State::Ground,
        t.col >= t.cols,
        t.cols > 0,
        is_text(c),
    ensures
        t.feed_chars(seq![c]) == t.feed_chars(seq!['\r', '\n', c]),
        t.feed_chars(seq![c]).col == 1,
        t.feed_chars(seq![c]).rows[t.feed_chars(seq![c]).row][0] == c,
{
    lemma_feed_pair(t, c, c);
    lemma_feed_pair(t, '\r', '\n');
    let s = seq!['\r', '\n', c];
    assert(s.drop_last() =~= seq!['\r', '\n']);
    let u = t.carriage_return().line_feed();
    assert(t.feed_chars(seq!['\r', '\n']) == u);
}

proof fn lemma_blanks_written(t: Screen, n: int)
    requires
        n >= 0,
        t.state == State::Ground,
    ensures
        t.put_blanks(n) == t.feed_chars(screen::blanks(n)),
        t.put_blanks(n).state == State::Ground,
    decreases n,
{
    let b = screen::blanks(n);
    if n > 0 {
        lemma_blanks_written(t, n - 1);
        assert(b.drop_last() =~= screen::blanks(n - 1));
        assert(b.last() == ' ');
    } else {
        assert(b =~= Seq::empty());
    }
}

/// A tab writes blanks up to the next column whose number is a multiple of eight, or up to
/// the right edge where that is nearer. At the edge it does nothing.
pub proof fn law_tabs(t: Screen)
    requires
        t.valid(),
        t.state == State::Ground,
    ensures
        t.col >= t.cols ==> t.feed_chars(seq!['\t']) == t,
        t.col < t.cols ==> exists|b: Seq<char>|
            {
                &&& t.feed_chars(seq!['\t']) == #[trigger] t.feed_chars(b)
                &&& b.len() > 0
                &&& forall|i: int| 0 <= i < b.len() ==> #[trigger] b[i] == ' '
                &&& t.col + b.len() == t.cols || (t.col + b.len()) % 8 == 0
                &&& t.col + b.len() <= t.cols
                &&& b.len() <= 8
            },
{
    lemma_feed_pair(t, '\t', '\t');
    let n = screen::least(8 - t.col % 8, screen::most(t.cols - t.col, 0));
    lemma_blanks_written(t, n);
    if t.col < t.cols {
        let b = screen::blanks(n);
        assert(t.feed_chars(seq!['\t']) == t.feed_chars(b));
        if n == 8 - t.col % 8 {
            assert((t.col + n) % 8 == 0);
        }
    }
}

// ---------------------------------------------------------------------------
// Bytes
// ---------------------------------------------------------------------------

/// Bytes that begin no character, and whole characters that are malformed, come out as one
/// replacement character. What begins a character is told by its first byte.
pub proof fn law_malformed_bytes_are_replaced(t: Screen, b: Seq<u8>)
    requires
        t.valid(),
        t.pending.len() == 0,
        b.len() > 0,
        !valid_utf8(b),
        b.len() == if 0xc0 <= b[0] && b[0] <= 0xdf {
            2
        } else if 0xe0 <= b[0] && b[0] <= 0xef {
            3
        } else if 0xf0 <= b[0] && b[0] <= 0xf7 {
            4
        } else {
            1int
        },
    ensures
        t.feed(b) == t.feed_chars(seq!['\u{fffd}']),
{
    utf8_byte_ranges_bitwise(b[0]);
    assert(t.pending + b =~= b);
    assert(screen::unit_len(b[0]) == b.len());
    assert(b.take(b.len() as int) =~= b);
    assert(b.skip(b.len() as int) =~= Seq::empty());
    assert(screen::decoded(b.skip(b.len() as int)) =~= Seq::<char>::empty());
    assert(screen::decoded(b) =~= seq!['\u{fffd}']);
    assert(screen::undecoded(b.skip(b.len() as int)) =~= Seq::<u8>::empty());
    assert(screen::undecoded(b) == Seq::<u8>::empty());
    assert((Screen { pending: Seq::empty(), ..t }) =~= t);
    screen::lemma_pending_untouched(t, seq!['\u{fffd}']);
    assert(t.feed(b) =~= t.feed_chars(seq!['\u{fffd}']));
}

/// The first bytes of a character change nothing that is shown, until the rest arrives.
pub proof fn law_incomplete_characters_are_held_back(t: Screen, b: Seq<u8>)
    requires
        t.valid(),
        t.pending.len() == 0,
        b.len() > 0,
        b.len() < if 0xc0 <= b[0] && b[0] <= 0xdf {
            2
        } else if 0xe0 <= b[0] && b[0] <= 0xef {
            3
        } else if 0xf0 <= b[0] && b[0] <= 0xf7 {
            4
        } else {
            1int
        },
    ensures
        t.feed(b) == (Screen { pending: b, ..t }),
{
    utf8_byte_ranges_bitwise(b[0]);
    assert(t.pending + b =~= b);
    assert(screen::unit_len(b[0]) > b.len());
    assert((Screen { pending: Seq::empty(), ..t }) =~= t);
    assert(screen::decoded(b) =~= Seq::<char>::empty());
    assert(t.feed(b) =~= (Screen { pending: b, ..t }));
}

// ---------------------------------------------------------------------------
// The size
// ---------------------------------------------------------------------------

/// A change of size: the terminal has that size then, and at least one row and column. The
/// bottom rows stay, those above that do not fit go to the scrollback in their order, and
/// missing rows come in empty at the bottom. The cursor stays in its row where that is left,
/// and in its column.
pub proof fn law_resizing(t: Screen, cols: int, height: int)
    requires
        t.valid(),
        1 <= cols <= usize::MAX,
        1 <= height <= isize::MAX,
    ensures
        ({
            let u = t.resize(cols, height);
            let gone = if t.height > height {
                t.height - height
            } else {
                0
            };
            let all = t.scrollback + t.rows.take(gone);
            &&& u.cols == cols && u.height == height && u.rows.len() == height
            &&& u.col == t.col && u.state == t.state && u.params == t.params && u.osc == t.osc
                && u.pending == t.pending
            &&& forall|i: int|
                0 <= i < height && i + gone < t.height ==> #[trigger] u.rows[i] == t.rows[i + gone]
            &&& forall|i: int| t.height <= i < height ==> (#[trigger] u.rows[i]).len() == 0
            &&& u.row == if t.row >= gone {
                t.row - gone
            } else {
                0
            }
            &&& all.len() + height <= 4000 ==> u.scrollback == all
            &&& all.len() + height > 4000 && height < 4000 ==> u.scrollback == all.skip(
                all.len() + height - 4000,
            )
            &&& height >= 4000 ==> u.scrollback.len() == 0
        }),
{
    let u = t.resize(cols, height);
    let gone = screen::most(t.rows.len() - height, 0);
    let all = t.scrollback + t.rows.take(gone);
    if all.len() + height > 4000 && height < 4000 {
        assert(u.scrollback =~= all.skip(all.len() + height - 4000));
    }
}

// ---------------------------------------------------------------------------
// What is shown
// ---------------------------------------------------------------------------

/// Some lines with a text between each two of them.
pub open spec fn joined(lines: Seq<Seq<char>>, between: Seq<char>) -> Seq<char>
    decreases lines.len(),
{
    if lines.len() == 0 {
        Seq::empty()
    } else if lines.len() == 1 {
        lines[0]
    } else {
        joined(lines.drop_last(), between) + between + lines.last()
    }
}

proof fn lemma_joined(lines: Seq<Seq<char>>, shown: Seq<Seq<char>>)
    requires
        lines.len() == shown.len(),
        forall|i: int| 0 <= i < lines.len() ==> #[trigger] shown[i] == text::trimmed_end(lines[i]),
    ensures
        screen::join_lines(lines) == joined(shown, seq!['\n']),
    decreases lines.len(),
{
    if lines.len() > 1 {
        lemma_joined(lines.drop_last(), shown.drop_last());
        let front = joined(shown.drop_last(), seq!['\n']);
        assert(front.push('\n') =~= front + seq!['\n']);
    } else if lines.len() == 1 {
        assert(shown[0] == text::trimmed_end(lines[0]));
    }
}

proof fn lemma_shown_lines(lines: Seq<Seq<char>>, end: int)
    requires
        0 <= end <= lines.len(),
        end > 0 ==> !screen::is_blank(lines[end - 1]),
        forall|i: int| end <= i < lines.len() ==> screen::is_blank(#[trigger] lines[i]),
    ensures
        screen::without_trailing_blanks(lines) == lines.take(end),
    decreases lines.len(),
{
    if end < lines.len() {
        assert(screen::is_blank(lines[lines.len() - 1]));
        lemma_shown_lines(lines.drop_last(), end);
        assert(lines.drop_last().take(end) =~= lines.take(end));
    } else {
        assert(lines.take(end) =~= lines);
    }
}

/// What a terminal shows: the lines of the scrollback and the screen up to the last one that
/// is not blank, each without its trailing white space, with a line break between them; the
/// last 1500 of them where there are more.
pub proof fn law_what_is_shown(t: Screen, end: int, k: int)
    requires
        t.valid(),
        0 <= end <= t.scrollback.len() + t.rows.len(),
        end > 0 ==> 0 <= k < (t.scrollback + t.rows)[end - 1].len() && (t.scrollback + t.rows)[end
            - 1][k] != ' ',
        forall|i: int, j: int|
            end <= i < t.scrollback.len() + t.rows.len() && 0 <= j < (t.scrollback
                + t.rows)[i].len() ==> #[trigger] (t.scrollback + t.rows)[i][j] == ' ',
    ensures
        ({
            let start = if end > 1500 {
                end - 1500
            } else {
                0
            };
            t.render() == joined(
                Seq::new(
                    (end - start) as nat,
                    |i: int| text::trimmed_end((t.scrollback + t.rows)[start + i]),
                ),
                seq!['\n'],
            )
        }),
{
    let lines = t.scrollback + t.rows;
    let start = if end > 1500 {
        end - 1500
    } else {
        0
    };
    if end > 0 {
        assert(!screen::is_blank(lines[end - 1])) by {
            assert(lines[end - 1][k] != ' ');
        }
    }
    assert forall|i: int| end <= i < lines.len() implies screen::is_blank(#[trigger] lines[i]) by {
        assert forall|j: int| 0 <= j < lines[i].len() implies #[trigger] lines[i][j] == ' ' by {}
    }
    lemma_shown_lines(lines, end);
    let kept = screen::keep_last(lines.take(end), 1500);
    let shown = Seq::new((end - start) as nat, |i: int| text::trimmed_end(lines[start + i]));
    assert forall|i: int| 0 <= i < kept.len() implies #[trigger] shown[i] == text::trimmed_end(
        kept[i],
    ) by {
        assert(kept[i] == lines[start + i]);
    }
    lemma_joined(kept, shown);
}

/// Whether a line is text that fits in a row and does not end in white space.
pub open spec fn is_line(s: Seq<char>, cols: int) -> bool {
    &&& s.len() <= cols
    &&& forall|i: int| 0 <= i < s.len() ==> is_text(#[trigger] s[i])
    &&& s.len() > 0 ==> !text::whitespace(s.last())
}

/// Whether a terminal holds some lines, with its cursor behind the last one.
spec fn holds(t: Screen, lines: Seq<Seq<char>>, cols: int, height: int) -> bool {
    &&& t.valid()
    &&& t.state == State::Ground
    &&& t.cols == cols && t.height == height
    &&& t.scrollback + t.rows == lines + screen::empty_rows(
        screen::most(height - lines.len(), 0),
    )
    &&& t.scrollback.len() + t.row == lines.len() - 1
    &&& t.col == lines.last().len()
}

proof fn lemma_line_written(t: Screen, s: Seq<char>)
    requires
        t.valid(),
        t.state == State::Ground,
        is_line(s, t.cols),
        t.rows[t.row].len() == 0,
        t.col == 0,
    ensures
        ({
            let u = t.feed_chars(s);
            &&& u.valid()
            &&& u.state == State::Ground
            &&& u == (Screen { rows: t.rows.update(t.row, s), col: s.len() as int, ..t })
        }),
{
    let u = t.feed_chars(s);
    if s.len() == 0 {
        assert(t.rows[t.row] =~= s);
        assert(t.rows.update(t.row, s) =~= t.rows);
    } else {
        law_text_is_written(t, s);
        assert(u.rows[t.row] =~= s);
        assert(u.rows =~= t.rows.update(t.row, s));
    }
}

proof fn lemma_row_opened(t: Screen, lines: Seq<Seq<char>>, d: Screen)
    requires
        holds(t, lines, t.cols, t.height),
        0 < lines.len() < 1500,
        went_down(Screen { col: 0, ..t }, d),
    ensures
        d.cols == t.cols && d.height == t.height && d.state == t.state,
        d.scrollback.len() + d.row == lines.len(),
        d.rows.len() == t.height,
        0 <= d.row < t.height,
        d.col == 0,
        d.rows[d.row].len() == 0,
        d.scrollback + d.rows == lines + screen::empty_rows(
            screen::most(t.height - lines.len(), 1),
        ),
{
    let all = t.scrollback + t.rows;
    let at = lines.len() as int;
    assert(all.len() == t.scrollback.len() + t.height);
    assert(all.len() == lines.len() + screen::most(t.height - lines.len(), 0));
    if t.row + 1 >= t.height {
        assert(t.height <= lines.len());
        assert(lines + screen::empty_rows(0) =~= lines);
        assert(t.scrollback.len() + t.height < 4000);
        assert(d.scrollback + d.rows =~= all.push(Seq::empty())) by {
            assert forall|i: int| 0 <= i < all.len() + 1 implies (d.scrollback + d.rows)[i]
                == all.push(Seq::empty())[i] by {
                let k = i - d.scrollback.len();
                if k >= 0 && k < t.height - 1 {
                    assert(d.rows[k] == t.rows[k + 1]);
                }
            }
            assert(d.rows[t.height - 1] =~= Seq::empty());
        }
        assert(all.push(Seq::empty()) =~= lines + screen::empty_rows(1));
    } else {
        assert(t.scrollback.len() == 0 || t.height <= lines.len());
        assert(all[at] == t.rows[t.row + 1]);
        assert(at < t.height + t.scrollback.len());
        assert(t.height > lines.len());
        assert(all[at] == screen::empty_rows(t.height - lines.len())[0]);
    }
}

proof fn lemma_holds_more(t: Screen, lines: Seq<Seq<char>>, s: Seq<char>)
    requires
        holds(t, lines, t.cols, t.height),
        0 < lines.len() < 1500,
        is_line(s, t.cols),
        t.cols > 0,
    ensures
        holds(t.feed_chars(seq!['\r', '\n'] + s), lines.push(s), t.cols, t.height),
{
    lemma_feed_pair(t, '\r', '\n');
    screen::lemma_feed_chars_concat(t, seq!['\r', '\n'], s);
    let c = Screen { col: 0, ..t };
    let d = t.feed_chars(seq!['\r', '\n']);
    assert(d == c.line_feed());
    lemma_went_down(c);
    lemma_row_opened(t, lines, d);
    assert(d.valid());
    lemma_line_written(d, s);
    lemma_row_filled(d, lines, s, d.feed_chars(s));
}

proof fn lemma_row_filled(d: Screen, lines: Seq<Seq<char>>, s: Seq<char>, u: Screen)
    requires
        d.scrollback.len() + d.row == lines.len(),
        d.rows.len() == d.height,
        0 <= d.row < d.height,
        d.scrollback + d.rows == lines + screen::empty_rows(
            screen::most(d.height - lines.len(), 1),
        ),
        u.valid(),
        u.state == State::Ground,
        u == (Screen { rows: d.rows.update(d.row, s), col: s.len() as int, ..d }),
    ensures
        holds(u, lines.push(s), d.cols, d.height),
{
    let at = lines.len() as int;
    let n = screen::most(d.height - lines.len(), 1);
    assert(u.scrollback + u.rows =~= (d.scrollback + d.rows).update(at, s));
    assert(u.scrollback + u.rows =~= lines.push(s) + screen::empty_rows(n - 1));
    assert(n - 1 == screen::most(d.height - lines.push(s).len(), 0));
}

proof fn lemma_holds(cols: int, height: int, lines: Seq<Seq<char>>)
    requires
        1 <= cols <= usize::MAX,
        1 <= height <= isize::MAX,
        0 < lines.len() <= 1500,
        forall|i: int| 0 <= i < lines.len() ==> is_line(#[trigger] lines[i], cols),
    ensures
        holds(
            Screen::blank(cols, height).feed_chars(joined(lines, seq!['\r', '\n'])),
            lines,
            cols,
            height,
        ),
    decreases lines.len(),
{
    let b = Screen::blank(cols, height);
    if lines.len() == 1 {
        assert(is_line(lines[0], cols));
        lemma_line_written(b, lines[0]);
        let u = b.feed_chars(lines[0]);
        assert(u.scrollback + u.rows =~= lines + screen::empty_rows(
            screen::most(height - 1, 0),
        ));
    } else {
        let front = lines.drop_last();
        let s = lines.last();
        assert forall|i: int| 0 <= i < front.len() implies is_line(#[trigger] front[i], cols) by {
            assert(is_line(lines[i], cols));
        }
        assert(is_line(lines[lines.len() - 1], cols));
        lemma_holds(cols, height, front);
        let t = b.feed_chars(joined(front, seq!['\r', '\n']));
        lemma_holds_more(t, front, s);
        let ends = seq!['\r', '\n'];
        assert(joined(front, ends) + ends + s =~= joined(front, ends) + (ends + s));
        screen::lemma_feed_chars_concat(b, joined(front, ends), ends + s);
        assert(front.push(s) =~= lines);
    }
}

/// Lines that a shell writes are shown as they are, in their order, whether they fit on the
/// screen or the first of them scroll off it.
pub proof fn law_lines_are_shown(cols: int, height: int, lines: Seq<Seq<char>>)
    requires
        1 <= cols <= usize::MAX,
        1 <= height <= isize::MAX,
        0 < lines.len() <= 1500,
        forall|i: int| 0 <= i < lines.len() ==> is_line(#[trigger] lines[i], cols),
        lines.last().len() > 0,
    ensures
        Screen::blank(cols, height).feed_chars(joined(lines, seq!['\r', '\n'])).render() == joined(
            lines,
            seq!['\n'],
        ),
{
    lemma_holds(cols, height, lines);
    let t = Screen::blank(cols, height).feed_chars(joined(lines, seq!['\r', '\n']));
    let all = t.scrollback + t.rows;
    let end = lines.len() as int;
    assert forall|i: int| 0 <= i < lines.len() implies text::trimmed_end(#[trigger] lines[i])
        == lines[i] by {
        assert(is_line(lines[i], cols));
    }
    assert(all[end - 1] == lines[end - 1]);
    assert(is_line(lines[end - 1], cols));
    let k = lines.last().len() - 1;
    assert(lines[end - 1][k] != ' ');
    assert forall|i: int, j: int| end <= i < all.len() && 0 <= j < all[i].len() implies
        #[trigger] all[i][j] == ' ' by {
        assert(all[i].len() == 0);
    }
    law_what_is_shown(t, end, k);
    let shown = Seq::new(end as nat, |i: int| text::trimmed_end(all[0 + i]));
    assert(shown =~= lines);
}

// ---------------------------------------------------------------------------
// Parameters, and what breaks a sequence off
// ---------------------------------------------------------------------------

/// The parameters of a control sequence stand between semicolons or colons, in their order;
/// what is no number among them is passed over.
pub proof fn law_parameters(a: Seq<char>, sep: char, b: Seq<char>, s: Seq<char>, n: nat)
    requires
        sep == ';' || sep == ':',
        n <= i64::MAX,
    ensures
        screen::param_numbers(a + seq![sep] + b) == screen::param_numbers(a)
            + screen::param_numbers(b),
        screen::param_numbers(text::decimal(n)) == seq![n as int],
        screen::param_numbers(Seq::empty()) == Seq::<int>::empty(),
        !s.contains(';') && !s.contains(':') && text::parsed_int(
            s,
            i64::MIN as int,
            i64::MAX as int,
        ) is None ==> screen::param_numbers(s) == Seq::<int>::empty(),
{
    text::law_parts_around_a_separator(a, sep, b, ';', ':');
    lemma_numbers_concat(text::split_parts(a, ';', ':'), text::split_parts(b, ';', ':'));
    lemma_one_number(n);
    lemma_no_number();
    if !s.contains(';') && !s.contains(':') {
        text::law_one_part(s, ';', ':');
        let parts = seq![s];
        assert(parts.drop_last() =~= Seq::empty());
        assert(screen::numbers_among(parts.drop_last()) == Seq::<int>::empty());
    }
}

proof fn lemma_numbers_concat(a: Seq<Seq<char>>, b: Seq<Seq<char>>)
    ensures
        screen::numbers_among(a + b) == screen::numbers_among(a) + screen::numbers_among(b),
    decreases b.len(),
{
    if b.len() == 0 {
        assert(a + b =~= a);
        assert(screen::numbers_among(a) + screen::numbers_among(b) =~= screen::numbers_among(a));
    } else {
        assert((a + b).drop_last() =~= a + b.drop_last());
        lemma_numbers_concat(a, b.drop_last());
        let (x, y) = (screen::numbers_among(a), screen::numbers_among(b.drop_last()));
        match text::parsed_int(b.last(), i64::MIN as int, i64::MAX as int) {
            Some(v) => {
                assert((x + y).push(v) =~= x + y.push(v));
            },
            None => {},
        }
    }
}

/// A parameter is the number at its place, and what the sequence says otherwise where there is
/// none; a negative one counts as zero.
pub proof fn law_parameter_at_its_place(ps: Seq<char>, i: int, default: int)
    requires
        0 <= i,
        0 <= default,
    ensures
        i < screen::param_numbers(ps).len() && screen::param_numbers(ps)[i] >= 0 ==> screen::param_of(
            ps,
            i,
            default,
        ) == screen::param_numbers(ps)[i],
        i < screen::param_numbers(ps).len() && screen::param_numbers(ps)[i] < 0 ==> screen::param_of(
            ps,
            i,
            default,
        ) == 0,
        i >= screen::param_numbers(ps).len() ==> screen::param_of(ps, i, default) == default,
{
}

/// A character that belongs in no control sequence breaks it off, without an effect.
pub proof fn law_sequences_break_off(t: Screen, ps: Seq<char>, c: char)
    requires
        t.state == State::Ground,
        forall|i: int| 0 <= i < ps.len() ==> '\u{20}' <= #[trigger] ps[i] && ps[i] <= '\u{3f}',
        c < '\u{20}' || c > '\u{7e}',
    ensures
        t.feed_chars(seq!['\u{1b}', '['] + ps + seq![c]) == (Screen { params: Seq::empty(), ..t }),
{
    let intro = seq!['\u{1b}', '['];
    let start = Screen { state: State::Csi, params: Seq::empty(), ..t };
    lemma_feed_pair(t, '\u{1b}', '[');
    assert(t.feed_chars(intro) =~= start);
    screen::lemma_collects_params(start, ps);
    screen::lemma_feed_chars_concat(t, intro, ps);
    assert(intro + ps + seq![c] =~= (intro + ps).push(c));
    screen::lemma_feed_one(t, intro + ps, c);
}

/// A new terminal is empty, with the cursor at home.
pub proof fn law_new_terminals(cols: int, height: int)
    requires
        0 <= cols <= usize::MAX,
        1 <= height <= isize::MAX,
    ensures
        ({
            let t = Screen::blank(cols, height);
            &&& t.valid()
            &&& t.cols == cols && t.height == height
            &&& t.row == 0 && t.col == 0
            &&& t.state == State::Ground
            &&& t.scrollback.len() == 0
            &&& forall|i: int| 0 <= i < height ==> (#[trigger] t.rows[i]).len() == 0
            &&& t.render().len() == 0
        }),
{
    let t = Screen::blank(cols, height);
    assert(t.valid());
    law_what_is_shown(t, 0, 0);
}

} // verus!
