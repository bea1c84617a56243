//! The display model: a two-window buffered output sink.
//!
//! The lower window is a queue of styled text runs; the upper window is a
//! character grid with a cursor. `split_window` only records the requested
//! height; the grid is truncated to it lazily (`resolve_upper_height`), which
//! lets a quote box printed at a taller height survive until the host has
//! drained it.

use vstd::prelude::*;

verus! {

#[derive(Ord, PartialOrd, Eq, PartialEq, Debug, Copy, Clone, Structural)]
pub enum Window {
    Lower,
    Upper,
}

/// A style bitfield: bit 0 reverse video, bit 1 bold, bit 2 italic,
/// bit 3 fixed pitch.
#[derive(Eq, PartialEq, Debug, Copy, Clone, Structural)]
pub struct TextStyle(pub u16);

impl TextStyle {
    pub fn new(flags: u16) -> (r: TextStyle)
        ensures
            r.0 == flags,
    {
        TextStyle(flags)
    }

    pub fn roman(self) -> (r: bool)
        ensures
            r == (self.0 == 0),
    {
        self.0 == 0
    }

    pub fn reverse_video(self) -> (r: bool)
        ensures
            r == (self.0 & 0x1 != 0),
    {
        self.0 & 0x1 != 0
    }

    pub fn bold(self) -> (r: bool)
        ensures
            r == (self.0 & 0x2 != 0),
    {
        self.0 & 0x2 != 0
    }

    pub fn italic(self) -> (r: bool)
        ensures
            r == (self.0 & 0x4 != 0),
    {
        self.0 & 0x4 != 0
    }

    pub fn fixed_pitch(self) -> (r: bool)
        ensures
            r == (self.0 & 0x8 != 0),
    {
        self.0 & 0x8 != 0
    }
}

impl Default for TextStyle {
    fn default() -> (r: Self)
        ensures
            r.0 == 0,
    {
        TextStyle(0)
    }
}

/// One run of lower-window output: a style and the text printed in it.
#[derive(Eq, PartialEq, Debug, Clone)]
pub struct BaseOutput {
    pub style: TextStyle,
    pub content: String,
}

/// The display sink the instruction dispatcher drives. `BaseUI` below is the
/// reference implementation; a host may substitute its own.
pub trait UI {
    fn print(&mut self, text: &str, style: TextStyle);

    fn debug(&mut self, text: &str);

    fn print_object(&mut self, object: &str);

    fn set_status_bar(&mut self, left: &str, right: &str);

    fn split_window(&mut self, lines: u16);

    fn set_window(&mut self, window: Window);

    fn erase_window(&mut self, window: Window);

    fn set_cursor(&mut self, line: u16, column: u16);

    fn flush(&mut self);

    fn message(&mut self, mtype: &str, msg: &str);
}

/// One cell of the upper-window grid.
pub open spec fn blank_cell() -> (TextStyle, char) {
    (TextStyle(0u16), ' ')
}

/// A row padded with blanks so that `col` is a valid index.
pub open spec fn spec_pad_row(row: Seq<(TextStyle, char)>, col: int) -> Seq<(TextStyle, char)> {
    if row.len() > col {
        row
    } else {
        row + Seq::new((col + 1 - row.len()) as nat, |i: int| blank_cell())
    }
}

/// The grid grown with empty rows so that `line` is a valid index.
pub open spec fn spec_grow_grid(grid: Seq<Seq<(TextStyle, char)>>, line: int) -> Seq<
    Seq<(TextStyle, char)>,
> {
    if grid.len() > line {
        grid
    } else {
        grid + Seq::new((line + 1 - grid.len()) as nat, |i: int| Seq::empty())
    }
}

/// A cursor coordinate bumped by one, capped at the machine word so the
/// model matches the executable arithmetic.
pub open spec fn sat_inc(n: nat) -> nat {
    if n + 1 <= usize::MAX {
        n + 1
    } else {
        n
    }
}

/// Writing one character at the cursor: newline moves the cursor to the next
/// row's first column; anything else lands in the (grown, padded) grid and
/// advances the cursor one column.
pub open spec fn spec_upper_char(
    grid: Seq<Seq<(TextStyle, char)>>,
    cursor: (nat, nat),
    style: TextStyle,
    c: char,
) -> (Seq<Seq<(TextStyle, char)>>, (nat, nat)) {
    if c == '\n' {
        (grid, (sat_inc(cursor.0), 0nat))
    } else {
        let grown = spec_grow_grid(grid, cursor.0 as int);
        let row = spec_pad_row(grown[cursor.0 as int], cursor.1 as int).update(
            cursor.1 as int,
            (style, c),
        );
        (grown.update(cursor.0 as int, row), (cursor.0, sat_inc(cursor.1)))
    }
}

/// `spec_upper_char` folded over a whole text.
pub open spec fn spec_upper_print(
    grid: Seq<Seq<(TextStyle, char)>>,
    cursor: (nat, nat),
    style: TextStyle,
    text: Seq<char>,
) -> (Seq<Seq<(TextStyle, char)>>, (nat, nat))
    decreases text.len(),
{
    if text.len() == 0 {
        (grid, cursor)
    } else {
        let stepped = spec_upper_char(grid, cursor, style, text[0]);
        spec_upper_print(stepped.0, stepped.1, style, text.skip(1))
    }
}

/// A buffered implementation of the display interface: the host drains the
/// lower-window runs and reads the upper grid after each step.
pub struct BaseUI {
    current_window: Window,
    upper_cursor: (usize, usize),
    upper_lines: Vec<Vec<(TextStyle, char)>>,
    requested_height: usize,
    cleared: bool,
    output: Vec<BaseOutput>,
    status_line: Option<(String, String)>,
}

impl BaseUI {
    pub closed spec fn window(&self) -> Window {
        self.current_window
    }

    pub closed spec fn cursor(&self) -> (nat, nat) {
        (self.upper_cursor.0 as nat, self.upper_cursor.1 as nat)
    }

    pub closed spec fn grid(&self) -> Seq<Seq<(TextStyle, char)>> {
        Seq::new(self.upper_lines@.len(), |i: int| self.upper_lines@[i]@)
    }

    pub closed spec fn req_height(&self) -> nat {
        self.requested_height as nat
    }

    pub closed spec fn cleared_flag(&self) -> bool {
        self.cleared
    }

    pub closed spec fn runs(&self) -> Seq<BaseOutput> {
        self.output@
    }

    pub closed spec fn status(&self) -> Option<(Seq<char>, Seq<char>)> {
        match self.status_line {
            None => None,
            Some((l, r)) => Some((l@, r@)),
        }
    }

    pub fn new() -> (r: BaseUI)
        ensures
            r.window() == Window::Lower,
            r.cursor() == (0nat, 0nat),
            r.grid() == Seq::<Seq<(TextStyle, char)>>::empty(),
            r.req_height() == 0,
            r.cleared_flag(),
            r.runs() == Seq::<BaseOutput>::empty(),
            r.status() is None,
    {
        let r = BaseUI {
            current_window: Window::Lower,
            upper_cursor: (0, 0),
            upper_lines: Vec::new(),
            requested_height: 0,
            cleared: true,
            output: Vec::new(),
            status_line: None,
        };
        proof {
            assert(r.grid() =~= Seq::<Seq<(TextStyle, char)>>::empty());
        }
        r
    }

    pub fn is_cleared(&self) -> (r: bool)
        ensures
            r == self.cleared_flag(),
    {
        self.cleared
    }

    pub fn status_line(&self) -> (r: Option<(&str, &str)>)
        ensures
            match r {
                None => self.status() is None,
                Some((l, p)) => self.status() == Some((l@, p@)),
            },
    {
        match &self.status_line {
            None => None,
            Some((l, p)) => Some((l.as_str(), p.as_str())),
        }
    }

    /// Truncate the grid to the last requested height; called by the host
    /// before reading the grid, and internally before printing to it.
    pub fn resolve_upper_height(&mut self)
        ensures
            final(self).grid() == spec_resolve(old(self).grid(), old(self).req_height()),
            final(self).window() == old(self).window(),
            final(self).cursor() == old(self).cursor(),
            final(self).req_height() == old(self).req_height(),
            final(self).cleared_flag() == old(self).cleared_flag(),
            final(self).runs() == old(self).runs(),
            final(self).status() == old(self).status(),
    {
        self.upper_lines.truncate(self.requested_height);
        proof {
            assert(self.grid() =~= spec_resolve(old(self).grid(), old(self).req_height()));
        }
    }

    pub fn upper_window(&self) -> (r: &Vec<Vec<(TextStyle, char)>>)
        ensures
            r@.len() == self.grid().len(),
            forall|i: int| 0 <= i < r@.len() ==> r@[i]@ == self.grid()[i],
    {
        &self.upper_lines
    }

    /// Hand the queued lower-window runs to the host and reset the
    /// cleared-since-last-drain flag.
    pub fn drain_output(&mut self) -> (r: Vec<BaseOutput>)
        ensures
            r@ == old(self).runs(),
            final(self).runs() == Seq::<BaseOutput>::empty(),
            !final(self).cleared_flag(),
            final(self).window() == old(self).window(),
            final(self).cursor() == old(self).cursor(),
            final(self).grid() == old(self).grid(),
            final(self).req_height() == old(self).req_height(),
            final(self).status() == old(self).status(),
    {
        self.cleared = false;
        let mut out: Vec<BaseOutput> = Vec::new();
        core::mem::swap(&mut out, &mut self.output);
        out
    }
}

/// The grid truncated to the requested height.
pub open spec fn spec_resolve(grid: Seq<Seq<(TextStyle, char)>>, req: nat) -> Seq<
    Seq<(TextStyle, char)>,
> {
    if grid.len() <= req {
        grid
    } else {
        grid.take(req as int)
    }
}

/// The grid after a height request of `n`: when the request grows the window,
/// the grid is resolved and extended with empty rows; the grid is never
/// shrunk here.
pub open spec fn spec_split(grid: Seq<Seq<(TextStyle, char)>>, req: nat, n: nat) -> Seq<
    Seq<(TextStyle, char)>,
> {
    if req < n {
        spec_resolve(grid, req) + Seq::new((n - req) as nat, |i: int| Seq::empty())
    } else {
        grid
    }
}

impl UI for BaseUI {
    fn print(&mut self, text: &str, style: TextStyle) {
        match self.current_window {
            Window::Lower => self.print_lower(text, style),
            Window::Upper => self.print_upper(text, style),
        }
    }

    fn debug(&mut self, _text: &str) {
    }

    fn print_object(&mut self, object: &str) {
        self.print(object, TextStyle::new(0));
    }

    fn set_status_bar(&mut self, left: &str, right: &str) {
        self.set_status_bar_impl(left, right);
    }

    fn split_window(&mut self, lines: u16) {
        self.split_window_impl(lines);
    }

    fn set_window(&mut self, window: Window) {
        self.set_window_impl(window);
    }

    fn erase_window(&mut self, window: Window) {
        self.erase_window_impl(window);
    }

    fn set_cursor(&mut self, line: u16, column: u16) {
        self.set_cursor_impl(line, column);
    }

    fn flush(&mut self) {
    }

    fn message(&mut self, _mtype: &str, _msg: &str) {
    }
}

impl BaseUI {
    /// Append to the lower window: extend the last run when the style
    /// matches, otherwise start a new run.
    pub fn print_lower(&mut self, text: &str, style: TextStyle)
        ensures
            final(self).window() == old(self).window(),
            final(self).cursor() == old(self).cursor(),
            final(self).grid() == old(self).grid(),
            final(self).req_height() == old(self).req_height(),
            final(self).cleared_flag() == old(self).cleared_flag(),
            final(self).status() == old(self).status(),
            old(self).runs().len() > 0 && old(self).runs().last().style == style ==> {
                &&& final(self).runs().len() == old(self).runs().len()
                &&& forall|i: int|
                    0 <= i < old(self).runs().len() - 1 ==> final(self).runs()[i] == old(
                        self,
                    ).runs()[i]
                &&& final(self).runs().last().style == style
                &&& final(self).runs().last().content@ == old(self).runs().last().content@
                    + text@
            },
            !(old(self).runs().len() > 0 && old(self).runs().last().style == style) ==> {
                &&& final(self).runs().len() == old(self).runs().len() + 1
                &&& forall|i: int|
                    0 <= i < old(self).runs().len() ==> final(self).runs()[i] == old(
                        self,
                    ).runs()[i]
                &&& final(self).runs().last().style == style
                &&& final(self).runs().last().content@ == text@
            },
    {
        let n = self.output.len();
        if n > 0 && self.output[n - 1].style.0 == style.0 {
            let mut run = self.output.remove(n - 1);
            run.content.append(text);
            self.output.push(run);
        } else {
            let mut content = String::new();
            content.append(text);
            self.output.push(BaseOutput { style, content });
        }
    }

    /// Write into the upper grid character by character from the cursor,
    /// after resolving the grid to the requested height.
    pub fn print_upper(&mut self, text: &str, style: TextStyle)
        ensures
            final(self).window() == old(self).window(),
            final(self).cleared_flag() == old(self).cleared_flag(),
            final(self).runs() == old(self).runs(),
            final(self).status() == old(self).status(),
            ({
                let folded = spec_upper_print(
                    spec_resolve(old(self).grid(), old(self).req_height()),
                    old(self).cursor(),
                    style,
                    text@,
                );
                &&& final(self).grid() == folded.0
                &&& final(self).cursor() == folded.1
            }),
    {
        self.resolve_upper_height();
        proof {
            assert(text@.skip(0) =~= text@);
        }
        let n = text.unicode_len();
        let mut i: usize = 0;
        while i < n
            invariant
                n == text@.len(),
                i <= n,
                self.window() == old(self).window(),
                self.cleared_flag() == old(self).cleared_flag(),
                self.runs() == old(self).runs(),
                self.status() == old(self).status(),
                spec_upper_print(self.grid(), self.cursor(), style, text@.skip(i as int))
                    == spec_upper_print(
                    spec_resolve(old(self).grid(), old(self).req_height()),
                    old(self).cursor(),
                    style,
                    text@,
                ),
            decreases n - i,
        {
            let c = text.get_char(i);
            self.put_upper_char(c, style);
            proof {
                assert(text@.skip(i as int).skip(1) =~= text@.skip(i + 1));
            }
            i = i + 1;
        }
    }

    /// One character into the grid at the cursor.
    fn put_upper_char(&mut self, c: char, style: TextStyle)
        ensures
            final(self).window() == old(self).window(),
            final(self).cleared_flag() == old(self).cleared_flag(),
            final(self).runs() == old(self).runs(),
            final(self).status() == old(self).status(),
            ({
                let stepped = spec_upper_char(old(self).grid(), old(self).cursor(), style, c);
                &&& final(self).grid() == stepped.0
                &&& final(self).cursor() == stepped.1
            }),
    {
        if c == '\n' {
            let r0 = self.upper_cursor.0;
            let bumped: usize = if r0 < usize::MAX {
                r0 + 1
            } else {
                r0
            };
            self.upper_cursor = (bumped, 0);
            return ;
        }
        let line_number = self.upper_cursor.0;
        let column_number = self.upper_cursor.1;
        // Grow the grid so the cursor row exists.
        while self.upper_lines.len() <= line_number
            invariant
                self.window() == old(self).window(),
                self.upper_cursor == old(self).upper_cursor,
                self.cleared_flag() == old(self).cleared_flag(),
                self.runs() == old(self).runs(),
                self.status() == old(self).status(),
                self.requested_height == old(self).requested_height,
                self.upper_lines@.len() >= old(self).upper_lines@.len(),
                self.upper_lines@.len() <= line_number + 1 || self.upper_lines@.len() == old(
                    self,
                ).upper_lines@.len(),
                forall|j: int|
                    0 <= j < old(self).upper_lines@.len() ==> self.upper_lines@[j] == old(
                        self,
                    ).upper_lines@[j],
                forall|j: int|
                    old(self).upper_lines@.len() <= j < self.upper_lines@.len()
                        ==> self.upper_lines@[j]@.len() == 0,
            decreases line_number + 1 - self.upper_lines.len(),
        {
            self.upper_lines.push(Vec::new());
        }
        let ghost grown = spec_grow_grid(old(self).grid(), line_number as int);
        proof {
            assert forall|j: int| 0 <= j < self.upper_lines@.len() implies self.grid()[j]
                == grown[j] by {
                assert(self.grid()[j] == self.upper_lines@[j]@);
                if j < old(self).upper_lines@.len() {
                    assert(old(self).grid()[j] == old(self).upper_lines@[j]@);
                } else {
                    assert(self.upper_lines@[j]@.len() == 0);
                }
            }
            assert(self.grid() =~~= grown);
            assert(self.grid()[line_number as int] == self.upper_lines@[line_number as int]@);
            assert(grown[line_number as int] == self.upper_lines@[line_number as int]@);
        }
        // Copy the row out, pad it to the cursor column, place the cell.
        let mut row: Vec<(TextStyle, char)> = Vec::new();
        let old_row = &self.upper_lines[line_number];
        let row_len = old_row.len();
        let mut j: usize = 0;
        while j < row_len
            invariant
                j <= row_len,
                row_len == self.upper_lines@[line_number as int]@.len(),
                line_number < self.upper_lines@.len(),
                row@ == self.upper_lines@[line_number as int]@.take(j as int),
            decreases row_len - j,
        {
            let cell = self.upper_lines[line_number][j];
            row.push(cell);
            proof {
                assert(row@ =~= self.upper_lines@[line_number as int]@.take(j + 1));
            }
            j = j + 1;
        }
        proof {
            assert(row@ =~= self.upper_lines@[line_number as int]@);
        }
        while row.len() <= column_number
            invariant
                line_number < self.upper_lines@.len(),
                row@.len() >= self.upper_lines@[line_number as int]@.len(),
                row@.len() <= column_number + 1 || row@.len() == self.upper_lines@[line_number as int]@.len(),
                forall|k: int|
                    0 <= k < self.upper_lines@[line_number as int]@.len() ==> row@[k]
                        == self.upper_lines@[line_number as int]@[k],
                forall|k: int|
                    self.upper_lines@[line_number as int]@.len() <= k < row@.len() ==> row@[k]
                        == blank_cell(),
            decreases column_number + 1 - row.len(),
        {
            row.push((TextStyle::new(0), ' '));
        }
        proof {
            assert(row@ =~= spec_pad_row(
                self.upper_lines@[line_number as int]@,
                column_number as int,
            ));
        }
        row.set(column_number, (style, c));
        let ghost prev = self.upper_lines@;
        self.upper_lines.set(line_number, row);
        let bumped: usize = if column_number < usize::MAX {
            column_number + 1
        } else {
            column_number
        };
        self.upper_cursor = (line_number, bumped);
        proof {
            let target = grown.update(
                line_number as int,
                spec_pad_row(grown[line_number as int], column_number as int).update(
                    column_number as int,
                    (style, c),
                ),
            );
            assert forall|j: int| 0 <= j < self.upper_lines@.len() implies self.grid()[j]
                == target[j] by {
                assert(self.grid()[j] == self.upper_lines@[j]@);
                if j != line_number {
                    assert(self.upper_lines@[j] == prev[j]);
                }
            }
            assert(self.grid() =~= target);
        }
    }

    /// Record the requested height; grow the grid only when the request is
    /// taller than the last one.
    pub fn split_window_impl(&mut self, lines: u16)
        ensures
            final(self).window() == old(self).window(),
            final(self).cursor() == old(self).cursor(),
            final(self).cleared_flag() == old(self).cleared_flag(),
            final(self).runs() == old(self).runs(),
            final(self).status() == old(self).status(),
            final(self).grid() == spec_split(old(self).grid(), old(self).req_height(), lines as nat),
            final(self).req_height() == lines as nat,
    {
        let current_lines = self.requested_height;
        let requested_lines = lines as usize;
        if current_lines < requested_lines {
            self.resolve_upper_height();
            let ghost resolved = self.grid();
            let ghost base = self.upper_lines@;
            let mut k: usize = current_lines;
            while k < requested_lines
                invariant
                    current_lines <= k <= requested_lines,
                    self.window() == old(self).window(),
                    self.upper_cursor == old(self).upper_cursor,
                    self.cleared_flag() == old(self).cleared_flag(),
                    self.runs() == old(self).runs(),
                    self.status() == old(self).status(),
                    self.requested_height == old(self).requested_height,
                    self.upper_lines@.len() == base.len() + (k - current_lines),
                    forall|j: int| 0 <= j < base.len() ==> self.upper_lines@[j] == base[j],
                    forall|j: int|
                        base.len() <= j < self.upper_lines@.len() ==> self.upper_lines@[j]@.len()
                            == 0,
                decreases requested_lines - k,
            {
                self.upper_lines.push(Vec::new());
                k = k + 1;
            }
            proof {
                let target = spec_split(
                    old(self).grid(),
                    old(self).req_height(),
                    lines as nat,
                );
                assert(resolved.len() == base.len());
                assert forall|j: int| 0 <= j < self.upper_lines@.len() implies self.grid()[j]
                    =~= target[j] by {
                    assert(self.grid()[j] == self.upper_lines@[j]@);
                    if j < base.len() {
                        assert(resolved[j] == base[j]@);
                    } else {
                        assert(self.upper_lines@[j]@.len() == 0);
                        assert(target[j] == Seq::<(TextStyle, char)>::empty());
                    }
                }
                assert(self.grid() =~= target);
            }
        }
        self.requested_height = requested_lines;
    }

    /// Switch windows; entering the upper window homes the cursor.
    pub fn set_window_impl(&mut self, window: Window)
        ensures
            final(self).window() == window,
            final(self).grid() == old(self).grid(),
            final(self).req_height() == old(self).req_height(),
            final(self).cleared_flag() == old(self).cleared_flag(),
            final(self).runs() == old(self).runs(),
            final(self).status() == old(self).status(),
            old(self).window() == window ==> final(self).cursor() == old(self).cursor(),
            old(self).window() != window && window == Window::Upper ==> final(self).cursor() == (
                0nat,
                0nat,
            ),
            old(self).window() != window && window == Window::Lower ==> final(self).cursor()
                == old(self).cursor(),
    {
        if self.current_window == window {
            return ;
        }
        self.current_window = window;
        if window == Window::Upper {
            self.upper_cursor = (0, 0);
        }
    }

    /// Erase a window: the lower queue is emptied and the cleared flag set;
    /// the upper grid keeps its shape but loses its contents.
    pub fn erase_window_impl(&mut self, window: Window)
        ensures
            final(self).window() == old(self).window(),
            final(self).cursor() == old(self).cursor(),
            final(self).req_height() == old(self).req_height(),
            final(self).status() == old(self).status(),
            window == Window::Lower ==> {
                &&& final(self).cleared_flag()
                &&& final(self).runs() == Seq::<BaseOutput>::empty()
                &&& final(self).grid() == old(self).grid()
            },
            window == Window::Upper ==> {
                &&& final(self).cleared_flag() == old(self).cleared_flag()
                &&& final(self).runs() == old(self).runs()
                &&& final(self).grid().len() == old(self).grid().len()
                &&& forall|i: int|
                    0 <= i < final(self).grid().len() ==> final(self).grid()[i].len() == 0
            },
    {
        match window {
            Window::Lower => {
                self.cleared = true;
                self.output.clear();
            },
            Window::Upper => {
                let n = self.upper_lines.len();
                let ghost base = self.upper_lines@;
                let mut i: usize = 0;
                while i < n
                    invariant
                        i <= n,
                        n == self.upper_lines@.len(),
                        n == base.len(),
                        self.window() == old(self).window(),
                        self.upper_cursor == old(self).upper_cursor,
                        self.cleared_flag() == old(self).cleared_flag(),
                        self.runs() == old(self).runs(),
                        self.status() == old(self).status(),
                        self.requested_height == old(self).requested_height,
                        forall|j: int| 0 <= j < i ==> self.upper_lines@[j]@.len() == 0,
                        forall|j: int| i <= j < n ==> self.upper_lines@[j] == base[j],
                    decreases n - i,
                {
                    self.upper_lines.set(i, Vec::new());
                    i = i + 1;
                }
                proof {
                    assert forall|j: int| 0 <= j < self.upper_lines@.len() implies self.grid()[
                        j
                    ].len() == 0 by {
                        assert(self.grid()[j] == self.upper_lines@[j]@);
                    }
                }
            },
        }
    }

    /// Reposition the cursor (1-based coordinates); ignored in the lower
    /// window.
    pub fn set_cursor_impl(&mut self, line: u16, column: u16)
        ensures
            final(self).window() == old(self).window(),
            final(self).grid() == old(self).grid(),
            final(self).req_height() == old(self).req_height(),
            final(self).cleared_flag() == old(self).cleared_flag(),
            final(self).runs() == old(self).runs(),
            final(self).status() == old(self).status(),
            old(self).window() == Window::Upper ==> final(self).cursor() == ((
                if line >= 1 {
                    (line - 1) as nat
                } else {
                    0nat
                }
            ), (
                if column >= 1 {
                    (column - 1) as nat
                } else {
                    0nat
                }
            )),
            old(self).window() == Window::Lower ==> final(self).cursor() == old(self).cursor(),
    {
        if self.current_window == Window::Upper {
            let l: usize = if line >= 1 { (line - 1) as usize } else { 0 };
            let c: usize = if column >= 1 { (column - 1) as usize } else { 0 };
            self.upper_cursor = (l, c);
        }
    }

    /// Record the status line shown above the play area.
    pub fn set_status_bar_impl(&mut self, left: &str, right: &str)
        ensures
            final(self).window() == old(self).window(),
            final(self).cursor() == old(self).cursor(),
            final(self).grid() == old(self).grid(),
            final(self).req_height() == old(self).req_height(),
            final(self).cleared_flag() == old(self).cleared_flag(),
            final(self).runs() == old(self).runs(),
            final(self).status() == Some((left@, right@)),
    {
        self.status_line = Some((left.to_owned(), right.to_owned()));
    }
}

} // verus!
