//! What the user interface shows, and the selection in the terminal.

use vstd::prelude::*;

use crate::screen;
use crate::text;

verus! {

// ---------------------------------------------------------------------------
// Lists and forms
// ---------------------------------------------------------------------------

/// A host in the list.
#[derive(Debug)]
pub struct HostRow {
    pub id: String,
    pub name: String,
    pub detail: String,
    pub auth: String,
}

/// A `HostRow`, as specifications see it.
#[verifier::ext_equal]
pub struct Row {
    pub id: Seq<char>,
    pub name: Seq<char>,
    pub detail: Seq<char>,
    pub auth: Seq<char>,
}

impl View for HostRow {
    type V = Row;

    open spec fn view(&self) -> Row {
        Row { id: self.id@, name: self.name@, detail: self.detail@, auth: self.auth@ }
    }
}

/// The views of a list of hosts.
pub open spec fn row_views(v: Seq<HostRow>) -> Seq<Row> {
    v.map_values(|r: HostRow| r@)
}

/// A session in the tab bar.
#[derive(Debug)]
pub struct TabRow {
    pub id: String,
    pub label: String,
    pub connected: bool,
}

/// A `TabRow`, as specifications see it.
#[verifier::ext_equal]
pub struct TabLine {
    pub id: Seq<char>,
    pub label: Seq<char>,
    pub connected: bool,
}

impl View for TabRow {
    type V = TabLine;

    open spec fn view(&self) -> TabLine {
        TabLine { id: self.id@, label: self.label@, connected: self.connected }
    }
}

/// The views of a tab bar.
pub open spec fn tab_views(v: Seq<TabRow>) -> Seq<TabLine> {
    v.map_values(|t: TabRow| t@)
}

/// The form in which a host is entered. `editing_id` is empty for a new host.
#[derive(Debug)]
pub struct HostForm {
    pub editing_id: String,
    pub name: String,
    pub host: String,
    pub port_text: String,
    pub user: String,
    pub auth: String,
    pub password: String,
    pub keypath: String,
    pub passphrase: String,
}

/// A `HostForm`, as specifications see it.
#[verifier::ext_equal]
pub struct Form {
    pub editing_id: Seq<char>,
    pub name: Seq<char>,
    pub host: Seq<char>,
    pub port_text: Seq<char>,
    pub user: Seq<char>,
    pub auth: Seq<char>,
    pub password: Seq<char>,
    pub keypath: Seq<char>,
    pub passphrase: Seq<char>,
}

impl View for HostForm {
    type V = Form;

    open spec fn view(&self) -> Form {
        Form {
            editing_id: self.editing_id@,
            name: self.name@,
            host: self.host@,
            port_text: self.port_text@,
            user: self.user@,
            auth: self.auth@,
            password: self.password@,
            keypath: self.keypath@,
            passphrase: self.passphrase@,
        }
    }
}

impl Form {
    /// The form of a new host.
    pub open spec fn blank() -> Form {
        Form {
            editing_id: Seq::empty(),
            name: Seq::empty(),
            host: Seq::empty(),
            port_text: "22"@,
            user: Seq::empty(),
            auth: "password"@,
            password: Seq::empty(),
            keypath: Seq::empty(),
            passphrase: Seq::empty(),
        }
    }

    /// The form after its host was saved: the port and the method stay.
    pub open spec fn saved(self) -> Form {
        Form { port_text: self.port_text, auth: self.auth, ..Form::blank() }
    }
}

impl HostForm {
    /// The form of a new host.
    pub fn blank() -> (r: HostForm)
        ensures
            r@ == Form::blank(),
    {
        HostForm {
            editing_id: String::new(),
            name: String::new(),
            host: String::new(),
            port_text: "22".to_owned(),
            user: String::new(),
            auth: "password".to_owned(),
            password: String::new(),
            keypath: String::new(),
            passphrase: String::new(),
        }
    }
}

// ---------------------------------------------------------------------------
// The terminal pane
// ---------------------------------------------------------------------------

/// The highlighted columns of a line.
#[derive(Debug, Clone, Copy, PartialEq, Eq, Structural)]
pub struct SelLine {
    pub line: i32,
    pub col_start: i32,
    pub col_end: i32,
}

/// The terminal pane. A selection that begins on line -1 is none.
#[derive(Debug)]
pub struct TermPane {
    pub text: String,
    pub line_count: i32,
    pub sel_start_line: i32,
    pub sel_start_col: i32,
    pub sel_end_line: i32,
    pub sel_end_col: i32,
    pub sel_lines: Vec<SelLine>,
    pub sel_text: String,
    pub host_label: String,
    pub connected: bool,
}

/// A `TermPane`, as specifications see it.
#[verifier::ext_equal]
pub struct Pane {
    pub text: Seq<char>,
    pub line_count: int,
    pub start_line: int,
    pub start_col: int,
    pub end_line: int,
    pub end_col: int,
    pub sel_lines: Seq<SelLine>,
    pub sel_text: Seq<char>,
    pub host_label: Seq<char>,
    pub connected: bool,
}

impl View for TermPane {
    type V = Pane;

    open spec fn view(&self) -> Pane {
        Pane {
            text: self.text@,
            line_count: self.line_count as int,
            start_line: self.sel_start_line as int,
            start_col: self.sel_start_col as int,
            end_line: self.sel_end_line as int,
            end_col: self.sel_end_col as int,
            sel_lines: self.sel_lines@,
            sel_text: self.sel_text@,
            host_label: self.host_label@,
            connected: self.connected,
        }
    }
}

/// The two ends of a selection in the order of the text.
pub open spec fn in_order(sl: int, sc: int, el: int, ec: int) -> (int, int, int, int) {
    if sl > el || sl == el && sc > ec {
        (el, ec, sl, sc)
    } else {
        (sl, sc, el, ec)
    }
}

/// A column within a row; columns on either side of it count as its end.
pub open spec fn col_in(c: int, len: int) -> int {
    if 0 <= c <= len {
        c
    } else {
        len
    }
}

/// The characters of a row between two columns.
pub open spec fn cut(row: Seq<char>, cs: int, ce: int) -> Seq<char> {
    let from = col_in(cs, row.len() as int);
    let to = screen::most(col_in(ce, row.len() as int), from);
    row.subrange(from, to)
}

/// Texts with a line break between each two.
pub open spec fn joined(parts: Seq<Seq<char>>) -> Seq<char>
    decreases parts.len(),
{
    if parts.len() == 0 {
        Seq::empty()
    } else if parts.len() == 1 {
        parts[0]
    } else {
        joined(parts.drop_last()).push('\n') + parts.last()
    }
}

/// A selection: from a line and column to a line and column, over a number of columns.
pub struct Span {
    pub sline: int,
    pub scol: int,
    pub eline: int,
    pub ecol: int,
    pub cols: int,
}

impl Span {
    /// The selection between two points of a text with `n` lines.
    pub open spec fn between(sl: int, sc: int, el: int, ec: int, n: int, cols: int) -> Span {
        let (a, b, c, d) = in_order(sl, sc, el, ec);
        Span {
            sline: screen::clamped(a, 0, n - 1),
            scol: b,
            eline: screen::clamped(c, 0, n - 1),
            ecol: d,
            cols,
        }
    }

    /// How many lines it covers.
    pub open spec fn len(self) -> int {
        self.eline - self.sline + 1
    }

    /// What is highlighted on the line number `k` of the selection.
    pub open spec fn highlight(self, k: int) -> SelLine {
        let line = self.sline + k;
        SelLine {
            line: line as i32,
            col_start: if line == self.sline {
                self.scol as i32
            } else {
                0
            },
            col_end: if line == self.eline {
                self.ecol as i32
            } else {
                self.cols as i32
            },
        }
    }

    /// The highlighted columns of the first `n` lines.
    pub open spec fn highlights(self, n: int) -> Seq<SelLine> {
        Seq::new(n as nat, |k: int| self.highlight(k))
    }

    /// The selected characters of the first `n` lines.
    pub open spec fn parts(self, lines: Seq<Seq<char>>, n: int) -> Seq<Seq<char>> {
        Seq::new(
            n as nat,
            |k: int|
                cut(
                    lines[self.sline + k],
                    self.highlight(k).col_start as int,
                    self.highlight(k).col_end as int,
                ),
        )
    }
}

impl Pane {
    /// The pane with another text. New output invalidates any active selection, so it is
    /// cleared here.
    pub open spec fn with_text(self, s: Seq<char>) -> Pane {
        Pane {
            text: s,
            line_count: screen::line_count(s),
            start_line: -1,
            start_col: -1,
            end_line: -1,
            end_col: -1,
            sel_lines: Seq::empty(),
            sel_text: Seq::empty(),
            ..self
        }
    }

    /// The lines of the text.
    pub open spec fn lines(self) -> Seq<Seq<char>> {
        text::split_parts(self.text, '\n', '\n')
    }

    /// The pane with its highlights and its selected text brought up to date, for a
    /// terminal of `cols` columns.
    pub open spec fn selected(self, cols: int) -> Pane {
        if self.start_line < 0 || self.end_line < 0 || self.text.len() == 0 {
            self
        } else {
            let lines = self.lines();
            let span = Span::between(
                self.start_line,
                self.start_col,
                self.end_line,
                self.end_col,
                lines.len() as int,
                cols,
            );
            Pane {
                sel_lines: span.highlights(span.len()),
                sel_text: joined(span.parts(lines, span.len())),
                ..self
            }
        }
    }

    /// What is copied: the selected text, or all of it where nothing is selected.
    pub open spec fn copied(self) -> Option<Seq<char>> {
        if self.sel_text.len() > 0 {
            Some(self.sel_text)
        } else if self.text.len() > 0 {
            Some(self.text)
        } else {
            None
        }
    }

    /// Whether the lines of the text can be counted in the pane.
    pub open spec fn countable(self) -> bool {
        screen::line_count(self.text) <= i32::MAX
    }
}

/// How many parts a text has between its line breaks.
pub proof fn lemma_lines_by_breaks(s: Seq<char>)
    ensures
        text::split_parts(s, '\n', '\n').len() == screen::breaks(s) + 1,
        screen::breaks(s) >= 0,
    decreases s.len(),
{
    if s.len() > 0 {
        lemma_lines_by_breaks(s.drop_last());
    }
}

proof fn lemma_breaks_monotone(s: Seq<char>, k: int)
    requires
        0 <= k <= s.len(),
    ensures
        0 <= screen::breaks(s.take(k)) <= screen::breaks(s),
    decreases s.len(),
{
    lemma_lines_by_breaks(s.take(k));
    if k < s.len() {
        lemma_breaks_monotone(s.drop_last(), k);
        assert(s.drop_last().take(k) =~= s.take(k));
    } else {
        assert(s.take(k) =~= s);
    }
}

/// How many lines a text has.
pub fn count_lines(s: &str) -> (r: i32)
    requires
        screen::line_count(s@) <= i32::MAX,
    ensures
        r == screen::line_count(s@),
{
    if s.is_empty() {
        return 0;
    }
    let v = text::chars_of(s);
    let mut n: i32 = 0;
    let mut i: usize = 0;
    assert(s@.take(0) =~= Seq::empty());
    while i < v.len()
        invariant
            i <= v@.len(),
            v@ == s@,
            n == screen::breaks(s@.take(i as int)),
            screen::breaks(s@) < i32::MAX,
        decreases v@.len() - i,
    {
        proof {
            lemma_breaks_monotone(s@, i + 1);
            lemma_breaks_monotone(s@, i as int);
            assert(s@.take(i + 1).drop_last() =~= s@.take(i as int));
            assert(s@.take(i + 1).last() == v@[i as int]);
        }
        if v[i] == '\n' {
            n += 1;
        }
        i += 1;
    }
    assert(s@.take(s@.len() as int) =~= s@);
    n + 1
}

/// The characters of a row between two columns.
fn cut_row(row: &[char], cs: i32, ce: i32) -> (r: Vec<char>)
    ensures
        r@ == cut(row@, cs as int, ce as int),
{
    let n: usize = row.len();
    let from: usize = if cs >= 0 && (cs as u64) <= n as u64 {
        cs as usize
    } else {
        n
    };
    let mut to: usize = if ce >= 0 && (ce as u64) <= n as u64 {
        ce as usize
    } else {
        n
    };
    if to < from {
        to = from;
    }
    text::slice_chars(row, from, to)
}

impl TermPane {
    /// A pane that shows nothing.
    pub fn blank() -> (r: TermPane)
        ensures
            r@.text == Seq::<char>::empty(),
            r@.line_count == 0,
            r@.start_line == -1,
            r@.start_col == -1,
            r@.end_line == -1,
            r@.end_col == -1,
            r@.sel_lines == Seq::<SelLine>::empty(),
            r@.sel_text == Seq::<char>::empty(),
            r@.host_label == "not connected"@,
            !r@.connected,
    {
        TermPane {
            text: String::new(),
            line_count: 0,
            sel_start_line: -1,
            sel_start_col: -1,
            sel_end_line: -1,
            sel_end_col: -1,
            sel_lines: Vec::new(),
            sel_text: String::new(),
            host_label: "not connected".to_owned(),
            connected: false,
        }
    }

    /// Set the terminal text and keep the line-count + selection state in sync. New
    /// output invalidates any active selection, so it is cleared here.
    pub fn set_terminal_text(&mut self, s: String)
        requires
            screen::line_count(s@) <= i32::MAX,
        ensures
            final(self)@ == old(self)@.with_text(s@),
    {
        let ghost before = self@;
        self.line_count = count_lines(s.as_str());
        self.text = s;
        self.sel_start_line = -1;
        self.sel_start_col = -1;
        self.sel_end_line = -1;
        self.sel_end_col = -1;
        self.sel_lines = Vec::new();
        self.sel_text = String::new();
        assert(self@ =~= before.with_text(s@));
    }

    /// Recompute the selection highlights and the selected text from the two ends of the
    /// selection and the rendered terminal text.
    pub fn recompute_selection(&mut self, cols: i32)
        requires
            old(self)@.countable(),
        ensures
            final(self)@ == old(self)@.selected(cols as int),
    {
        let ghost before = self@;
        if self.sel_start_line < 0 || self.sel_end_line < 0 {
            return;
        }
        if self.text.as_str().is_empty() {
            return;
        }
        let chars = text::chars_of(self.text.as_str());
        let lines = text::split_chars(chars.as_slice(), '\n', '\n');
        let ghost all = text::views(lines@);
        proof {
            lemma_lines_by_breaks(self.text@);
        }
        let nlines: i32 = lines.len() as i32;
        let (mut sline, mut scol) = (self.sel_start_line, self.sel_start_col);
        let (mut eline, mut ecol) = (self.sel_end_line, self.sel_end_col);
        if sline > eline || (sline == eline && scol > ecol) {
            let (l, c): (i32, i32) = (sline, scol);
            sline = eline;
            scol = ecol;
            eline = l;
            ecol = c;
        }
        if sline > nlines - 1 {
            sline = nlines - 1;
        }
        if eline > nlines - 1 {
            eline = nlines - 1;
        }
        let ghost span = Span::between(
            before.start_line,
            before.start_col,
            before.end_line,
            before.end_col,
            all.len() as int,
            cols as int,
        );
        let mut sel_lines: Vec<SelLine> = Vec::new();
        let mut sel_text = String::new();
        let mut line: i32 = sline;
        assert(span.highlights(0) =~= Seq::empty());
        assert(span.parts(all, 0) =~= Seq::empty());
        while line <= eline
            invariant
                0 <= sline <= line <= eline + 1,
                eline < nlines == lines@.len(),
                all == text::views(lines@),
                span == (Span {
                    sline: sline as int,
                    scol: scol as int,
                    eline: eline as int,
                    ecol: ecol as int,
                    cols: cols as int,
                }),
                sel_lines@ == span.highlights(line - sline),
                sel_text@ == joined(span.parts(all, line - sline)),
            decreases eline + 1 - line,
        {
            let cs: i32 = if line == sline {
                scol
            } else {
                0
            };
            let ce: i32 = if line == eline {
                ecol
            } else {
                cols
            };
            let ghost k = line - sline;
            let ghost chosen = sel_text@;
            sel_lines.push(SelLine { line, col_start: cs, col_end: ce });
            let part = cut_row(lines[line as usize].as_slice(), cs, ce);
            let part = text::string_of(part.as_slice());
            if line > sline {
                sel_text.push('\n');
            }
            sel_text.push_str(part.as_str());
            proof {
                assert(all[line as int] == lines@[line as int]@);
                assert(sel_lines@ =~= span.highlights(k + 1));
                let parts = span.parts(all, k + 1);
                assert(parts.last() == part@);
                assert(parts.drop_last() =~= span.parts(all, k));
                if k == 0 {
                    assert(sel_text@ =~= part@);
                }
            }
            line += 1;
        }
        self.sel_lines = sel_lines;
        self.sel_text = sel_text;
        assert(self@ =~= before.selected(cols as int));
    }

    /// What is copied: the selected text, or all of it where nothing is selected.
    pub fn copy_text(&self) -> (r: Option<String>)
        ensures
            match r {
                Some(s) => self@.copied() == Some(s@),
                None => self@.copied() is None,
            },
    {
        if !self.sel_text.as_str().is_empty() {
            Some(self.sel_text.clone())
        } else if !self.text.as_str().is_empty() {
            Some(self.text.clone())
        } else {
            None
        }
    }
}

// ---------------------------------------------------------------------------
// Laws
// ---------------------------------------------------------------------------

/// It makes no difference in which direction a selection was drawn.
pub proof fn law_selection_has_no_direction(p: Pane, cols: int)
    ensures
        ({
            let q = Pane {
                start_line: p.end_line,
                start_col: p.end_col,
                end_line: p.start_line,
                end_col: p.start_col,
                ..p
            };
            &&& q.selected(cols).sel_text == p.selected(cols).sel_text
            &&& q.selected(cols).sel_lines == p.selected(cols).sel_lines
        }),
{
}

proof fn lemma_joined_last(front: Seq<Seq<char>>, a: Seq<char>, c: char)
    ensures
        joined(front.push(a.push(c))) == joined(front.push(a)).push(c),
{
    let x = front.push(a.push(c));
    let y = front.push(a);
    assert(x.drop_last() =~= front);
    assert(y.drop_last() =~= front);
    if front.len() > 0 {
        assert(joined(x) =~= joined(y).push(c));
    }
}

/// The lines of a text, put together again, are the text.
pub proof fn law_joined_lines_are_the_text(s: Seq<char>)
    ensures
        joined(text::split_parts(s, '\n', '\n')) == s,
    decreases s.len(),
{
    let parts = text::split_parts(s, '\n', '\n');
    if s.len() == 0 {
        assert(parts[0] =~= s);
    } else {
        let front = text::split_parts(s.drop_last(), '\n', '\n');
        law_joined_lines_are_the_text(s.drop_last());
        text::lemma_split_parts_nonempty(s.drop_last(), '\n', '\n');
        if s.last() == '\n' {
            assert(parts.drop_last() =~= front);
            assert(joined(parts) =~= s);
        } else {
            assert(front =~= front.drop_last().push(front.last()));
            lemma_joined_last(front.drop_last(), front.last(), s.last());
            assert(joined(parts) =~= s);
        }
    }
}

/// Selecting from the first column of the first line to the last column of the last line
/// selects the text, where no line is longer than the terminal is wide.
pub proof fn law_select_all_selects_the_text(p: Pane, cols: int)
    requires
        p.text.len() > 0,
        p.countable(),
        0 <= cols <= i32::MAX,
        p.start_line == 0,
        p.start_col == 0,
        p.end_line == p.lines().len() - 1,
        p.end_col == cols,
        forall|i: int| 0 <= i < p.lines().len() ==> (#[trigger] p.lines()[i]).len() <= cols,
    ensures
        p.selected(cols).sel_text == p.text,
{
    let lines = p.lines();
    text::lemma_split_parts_nonempty(p.text, '\n', '\n');
    lemma_lines_by_breaks(p.text);
    let span = Span::between(0, 0, lines.len() - 1, cols, lines.len() as int, cols);
    let parts = span.parts(lines, span.len());
    assert forall|k: int| 0 <= k < parts.len() implies parts[k] == lines[k] by {
        let row = lines[k];
        assert(row.len() <= cols);
        if row.len() < cols {
            assert(parts[k] =~= row);
        } else {
            assert(parts[k] =~= row);
        }
    }
    assert(parts =~= lines);
    law_joined_lines_are_the_text(p.text);
}

/// A new text is shown with the number of its lines, and nothing of it is selected.
pub proof fn law_new_texts(p: Pane, s: Seq<char>)
    ensures
        ({
            let q = p.with_text(s);
            &&& q.text == s
            &&& s.len() == 0 ==> q.line_count == 0
            &&& s.len() > 0 ==> q.line_count == text::split_parts(s, '\n', '\n').len()
            &&& q.start_line == -1 && q.end_line == -1
            &&& q.sel_text.len() == 0 && q.sel_lines.len() == 0
            &&& q.host_label == p.host_label && q.connected == p.connected
        }),
{
    lemma_lines_by_breaks(s);
}

/// No line of a text holds a line break.
pub proof fn law_lines_hold_no_line_break(s: Seq<char>, i: int)
    requires
        0 <= i < text::split_parts(s, '\n', '\n').len(),
    ensures
        !text::split_parts(s, '\n', '\n')[i].contains('\n'),
    decreases s.len(),
{
    if s.len() > 0 {
        let front = text::split_parts(s.drop_last(), '\n', '\n');
        let parts = text::split_parts(s, '\n', '\n');
        text::lemma_split_parts_nonempty(s.drop_last(), '\n', '\n');
        if i < front.len() {
            law_lines_hold_no_line_break(s.drop_last(), i);
            if s.last() != '\n' && i == front.len() - 1 {
                let l = front.last().push(s.last());
                assert(parts[i] == l);
                if l.contains('\n') {
                    let k = choose|k: int| 0 <= k < l.len() && l[k] == '\n';
                    assert(front.last()[k] == '\n');
                }
            }
        }
    }
}

/// What is copied is the selection, and the whole text where there is none.
pub proof fn law_copying(p: Pane)
    ensures
        p.sel_text.len() > 0 ==> p.copied() == Some(p.sel_text),
        p.sel_text.len() == 0 && p.text.len() > 0 ==> p.copied() == Some(p.text),
        p.sel_text.len() == 0 && p.text.len() == 0 ==> p.copied() is None,
{
}

/// A selection within a line is what stands between its two columns, and that is highlighted.
pub proof fn law_selection_in_a_line(p: Pane, cols: int, line: int, from: int, to: int)
    requires
        p.text.len() > 0,
        p.countable(),
        0 <= line < p.lines().len(),
        0 <= from <= to <= p.lines()[line].len(),
        to <= i32::MAX,
        p.start_line == line,
        p.end_line == line,
        p.start_col == from,
        p.end_col == to,
    ensures
        p.selected(cols).sel_text == p.lines()[line].subrange(from, to),
        p.selected(cols).sel_lines == seq![
            SelLine { line: line as i32, col_start: from as i32, col_end: to as i32 },
        ],
        p.selected(cols) == (Pane {
            sel_text: p.selected(cols).sel_text,
            sel_lines: p.selected(cols).sel_lines,
            ..p
        }),
{
    let lines = p.lines();
    lemma_lines_by_breaks(p.text);
    let span = Span::between(line, from, line, to, lines.len() as int, cols);
    assert(span.len() == 1);
    let parts = span.parts(lines, 1);
    assert(parts[0] =~= lines[line].subrange(from, to));
    assert(span.highlights(1) =~= seq![
        SelLine { line: line as i32, col_start: from as i32, col_end: to as i32 },
    ]);
}

/// A selection over several lines is the first of them from its column on, those between as
/// they are, and the last up to its column, with a line break between each two. It is
/// highlighted up to the right edge but on the last line. No line is longer than the terminal
/// is wide here.
pub proof fn law_selection_over_lines(p: Pane, cols: int, sl: int, sc: int, el: int, ec: int, k: int)
    requires
        p.text.len() > 0,
        p.countable(),
        0 <= sl < el < p.lines().len(),
        0 <= sc <= p.lines()[sl].len(),
        0 <= ec <= p.lines()[el].len(),
        0 <= cols <= i32::MAX,
        forall|i: int| 0 <= i < p.lines().len() ==> (#[trigger] p.lines()[i]).len() <= cols,
        p.start_line == sl,
        p.start_col == sc,
        p.end_line == el,
        p.end_col == ec,
    ensures
        p.selected(cols).sel_text == crate::control::joined(
            Seq::new(
                (el - sl + 1) as nat,
                |i: int|
                    if i == 0 {
                        p.lines()[sl].skip(sc)
                    } else if i == el - sl {
                        p.lines()[el].take(ec)
                    } else {
                        p.lines()[sl + i]
                    },
            ),
            seq!['\n'],
        ),
        p.selected(cols).sel_lines.len() == el - sl + 1,
        0 <= k <= el - sl ==> p.selected(cols).sel_lines[k] == (SelLine {
            line: (sl + k) as i32,
            col_start: if k == 0 {
                sc as i32
            } else {
                0
            },
            col_end: if k == el - sl {
                ec as i32
            } else {
                cols as i32
            },
        }),
{
    let lines = p.lines();
    lemma_lines_by_breaks(p.text);
    let span = Span::between(sl, sc, el, ec, lines.len() as int, cols);
    let n = el - sl + 1;
    assert(span.len() == n);
    let parts = span.parts(lines, n);
    let want = Seq::new(
        n as nat,
        |i: int|
            if i == 0 {
                lines[sl].skip(sc)
            } else if i == el - sl {
                lines[el].take(ec)
            } else {
                lines[sl + i]
            },
    );
    assert(lines[sl].len() <= cols && lines[el].len() <= cols);
    assert forall|i: int| 0 <= i < n implies parts[i] == want[i] by {
        let row = lines[sl + i];
        assert(row.len() <= cols);
        assert(parts[i] =~= want[i]);
    }
    assert(parts =~= want);
    lemma_joined_alike(parts);
}

proof fn lemma_joined_alike(parts: Seq<Seq<char>>)
    ensures
        joined(parts) == crate::control::joined(parts, seq!['\n']),
    decreases parts.len(),
{
    if parts.len() > 1 {
        lemma_joined_alike(parts.drop_last());
        let f = joined(parts.drop_last());
        assert(f.push('\n') =~= f + seq!['\n']);
    }
}

/// Without two ends, or without a text, there is nothing to select.
pub proof fn law_nothing_to_select(p: Pane, cols: int)
    requires
        p.start_line < 0 || p.end_line < 0 || p.text.len() == 0,
    ensures
        p.selected(cols) == p,
{
}

/// A column behind the end of its line counts as the end, and so does one before its beginning.
pub proof fn law_columns_off_the_line(row: Seq<char>, from: int, to: int)
    requires
        0 <= from <= row.len(),
    ensures
        to > row.len() || to < 0 ==> cut(row, from, to) == row.skip(from),
        from <= to <= row.len() ==> cut(row, from, to) == row.subrange(from, to),
        0 <= to < from ==> cut(row, from, to).len() == 0,
        cut(row, row.len() as int + 1, to).len() == 0,
        cut(row, -1, to).len() == 0,
{
    if to > row.len() || to < 0 {
        assert(cut(row, from, to) =~= row.skip(from));
    }
}

/// A selection that begins or ends below the last line begins or ends on the last line.
pub proof fn law_lines_below_the_last(p: Pane, cols: int, below: int)
    requires
        p.text.len() > 0,
        p.lines().len() > 0,
        0 <= p.start_line < p.lines().len(),
        p.end_line == p.lines().len() - 1,
        p.start_line < p.end_line,
        below > p.end_line,
    ensures
        (Pane { end_line: below, ..p }).selected(cols).sel_text == p.selected(cols).sel_text,
        (Pane { end_line: below, ..p }).selected(cols).sel_lines == p.selected(cols).sel_lines,
{
}

} // verus!
