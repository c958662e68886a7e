//! A character grid and the labelled stems that are painted on it.

use crate::datetime::{format_timestamp, timestamp_label};
use vstd::prelude::*;
use vstd::string::*;

verus! {

/// The blank grid of `height` rows, each of `width` spaces.
pub open spec fn blank_grid(width: nat, height: nat) -> Seq<Seq<char>> {
    Seq::new(height, |r: int| Seq::new(width, |c: int| ' '))
}

/// `row` with `text` written over the cells that start at `column`.
pub open spec fn overwrite(row: Seq<char>, column: int, text: Seq<char>) -> Seq<char> {
    Seq::new(
        row.len(),
        |c: int|
            if column <= c < column + text.len() {
                text[c - column]
            } else {
                row[c]
            },
    )
}

/// The text of a grid: every row, top to bottom, each followed by a line feed.
pub open spec fn grid_text(grid: Seq<Seq<char>>) -> Seq<char>
    decreases grid.len(),
{
    if grid.len() == 0 {
        Seq::empty()
    } else {
        grid_text(grid.drop_last()) + grid.last() + seq!['\n']
    }
}

/// A fixed grid of characters, addressed by row and column.
pub struct Canvas {
    buffer: Vec<String>,
    width: usize,
    height: usize,
}

impl View for Canvas {
    type V = Seq<Seq<char>>;

    closed spec fn view(&self) -> Seq<Seq<char>> {
        Seq::new(self.buffer@.len(), |r: int| self.buffer@[r]@)
    }
}

impl Canvas {
    /// Every row is there and has the canvas's width.
    pub open spec fn wf(&self) -> bool {
        &&& self@.len() == self.rows()
        &&& forall|r: int|
            0 <= r < self@.len() ==> (#[trigger] self@[r]).len() == self.columns()
    }

    /// The number of columns.
    pub closed spec fn columns(&self) -> nat {
        self.width as nat
    }

    /// The number of rows.
    pub closed spec fn rows(&self) -> nat {
        self.height as nat
    }

    /// A canvas of `height` rows and `width` columns, every cell a space.
    pub fn new(width: usize, height: usize) -> (canvas: Canvas)
        ensures
            canvas.wf(),
            canvas@ == blank_grid(width as nat, height as nat),
            canvas.columns() == width,
            canvas.rows() == height,
    {
        let mut line = String::new();
        let mut c: usize = 0;
        while c < width
            invariant
                c <= width,
                line@ == Seq::new(c as nat, |k: int| ' '),
            decreases width - c,
        {
            proof {
                reveal_strlit(" ");
            }
            line.append(" ");
            c = c + 1;
        }
        let mut buffer: Vec<String> = Vec::new();
        let mut r: usize = 0;
        while r < height
            invariant
                r <= height,
                buffer@.len() == r,
                line@ == Seq::new(width as nat, |k: int| ' '),
                forall|k: int| 0 <= k < r ==> (#[trigger] buffer@[k])@ == line@,
            decreases height - r,
        {
            buffer.push(line.clone());
            r = r + 1;
        }
        let canvas = Canvas { buffer, width, height };
        canvas
    }

    /// The number of columns.
    pub fn width(&self) -> (width: usize)
        ensures
            width == self.columns(),
    {
        self.width
    }

    /// The number of rows.
    pub fn height(&self) -> (height: usize)
        ensures
            height == self.rows(),
    {
        self.height
    }

    /// Writes `text` into row `offset`, starting at `column`.
    pub fn update_row(&mut self, offset: usize, column: usize, text: &str)
        requires
            old(self).wf(),
            offset < old(self).rows(),
            column + text@.len() <= old(self).columns(),
        ensures
            final(self).wf(),
            final(self)@ == old(self)@.update(
                offset as int,
                overwrite(old(self)@[offset as int], column as int, text@),
            ),
            final(self).columns() == old(self).columns(),
            final(self).rows() == old(self).rows(),
    {
        assert(self@[offset as int] == self.buffer@[offset as int]@);
        let count: usize = text.unicode_len();
        let row = self.buffer[offset].as_str();
        let head = row.substring_char(0, column);
        let tail = row.substring_char(column + count, self.width);
        let mut line = String::from_str(head);
        line.append(text);
        line.append(tail);
        assert(line@ =~= overwrite(old(self)@[offset as int], column as int, text@));
        self.buffer.set(offset, line);
        assert(self@ =~= old(self)@.update(
            offset as int,
            overwrite(old(self)@[offset as int], column as int, text@),
        ));
    }

    /// The canvas as text: each row followed by a line feed.
    pub fn to_string(&self) -> (text: String)
        ensures
            text@ == grid_text(self@),
    {
        let mut text = String::new();
        let mut r: usize = 0;
        while r < self.buffer.len()
            invariant
                r <= self.buffer@.len(),
                text@ == grid_text(self@.take(r as int)),
            decreases self.buffer@.len() - r,
        {
            proof {
                reveal_strlit("\n");
                assert(self@.take(r as int + 1).drop_last() =~= self@.take(r as int));
            }
            text.append(self.buffer[r].as_str());
            text.append("\n");
            r = r + 1;
        }
        assert(self@.take(r as int) =~= self@);
        text
    }
}

/// The edge of the sparkline that a marker hangs on.
#[derive(Clone, Copy, Debug, PartialEq, Eq, Structural)]
pub enum TimestampLocation {
    /// Above the sparkline: the stem rises from the last row of the canvas.
    Top,
    /// Below the sparkline: the stem hangs from the first row of the canvas.
    Bottom,
}

/// A labelled stem: a column of `|` that leads from the sparkline to the
/// date and time of one timestamp.
#[derive(Clone, Copy, Debug)]
pub struct TimeMarker {
    /// The column of the stem.
    pub horizontal_offset: usize,
    /// The side of the sparkline that the marker is drawn on.
    pub timestamp_location: TimestampLocation,
    /// Epoch seconds of the moment that the label shows.
    pub timestamp: i64,
    /// The length of the stem, in rows.
    pub vertical_offset: usize,
}

impl TimeMarker {
    /// The first row of the stem on a canvas of `height` rows.
    pub open spec fn stem_start(&self, height: int) -> int {
        match self.timestamp_location {
            TimestampLocation::Top => height - self.vertical_offset,
            TimestampLocation::Bottom => 0,
        }
    }

    /// The row of the label on a canvas of `height` rows: the one that
    /// follows the far end of the stem.
    pub open spec fn label_row(&self, height: int) -> int {
        match self.timestamp_location {
            TimestampLocation::Top => height - 1 - self.vertical_offset,
            TimestampLocation::Bottom => self.vertical_offset as int,
        }
    }

    /// The column of the label's first character. Above the sparkline the
    /// label ends at the stem, below it the label starts there.
    pub open spec fn label_column(&self, length: int) -> int {
        match self.timestamp_location {
            TimestampLocation::Top => self.horizontal_offset + 1 - length,
            TimestampLocation::Bottom => self.horizontal_offset as int,
        }
    }

    /// The marker, with a label of `length` characters, lies within a canvas
    /// of `width` columns and `height` rows.
    pub open spec fn fits(&self, width: int, height: int, length: int) -> bool {
        &&& self.vertical_offset < height
        &&& 0 <= self.label_column(length)
        &&& self.label_column(length) + length <= width
        &&& self.vertical_offset > 0 ==> self.horizontal_offset < width
    }

    /// The cell at row `r` and column `c` once the marker is drawn with `label`.
    pub open spec fn drawn_cell(
        &self,
        grid: Seq<Seq<char>>,
        label: Seq<char>,
        r: int,
        c: int,
    ) -> char {
        let height = grid.len() as int;
        let first = self.label_column(label.len() as int);
        if r == self.label_row(height) && first <= c < first + label.len() {
            label[c - first]
        } else if self.stem_start(height) <= r < self.stem_start(height) + self.vertical_offset && c
            == self.horizontal_offset {
            '|'
        } else {
            grid[r][c]
        }
    }

    /// `grid` with the marker's stem and `label` drawn over it.
    pub open spec fn drawn(&self, grid: Seq<Seq<char>>, label: Seq<char>) -> Seq<Seq<char>> {
        Seq::new(
            grid.len(),
            |r: int| Seq::new(grid[r].len(), |c: int| self.drawn_cell(grid, label, r, c)),
        )
    }

    /// `grid` with only the first `count` rows of the stem drawn.
    spec fn stem_drawn(&self, grid: Seq<Seq<char>>, count: int) -> Seq<Seq<char>> {
        let start = self.stem_start(grid.len() as int);
        Seq::new(
            grid.len(),
            |r: int|
                Seq::new(
                    grid[r].len(),
                    |c: int|
                        if start <= r < start + count && c == self.horizontal_offset {
                            '|'
                        } else {
                            grid[r][c]
                        },
                ),
        )
    }

    /// The label that `chrono` gives this marker's timestamp exists and the
    /// marker fits `canvas` with it.
    pub open spec fn can_render(&self, canvas: &Canvas) -> bool {
        self.renders_within(canvas.columns() as int, canvas.rows() as int)
    }

    /// The label that `chrono` gives this marker's timestamp exists and the
    /// marker fits a canvas of `width` columns and `height` rows with it.
    pub open spec fn renders_within(&self, width: int, height: int) -> bool {
        &&& timestamp_label(self.timestamp) is Some
        &&& self.fits(width, height, timestamp_label(self.timestamp)->0.len() as int)
    }

    /// Draws the stem, then writes `label` in the row beyond its far end.
    pub fn draw(&self, canvas: &mut Canvas, label: &str)
        requires
            old(canvas).wf(),
            self.fits(
                old(canvas).columns() as int,
                old(canvas).rows() as int,
                label@.len() as int,
            ),
        ensures
            final(canvas).wf(),
            final(canvas).columns() == old(canvas).columns(),
            final(canvas).rows() == old(canvas).rows(),
            final(canvas)@ == self.drawn(old(canvas)@, label@),
    {
        let height: usize = canvas.height();
        let length: usize = label.unicode_len();
        let (start, row, column): (usize, usize, usize) = match self.timestamp_location {
            TimestampLocation::Top => (
                height - self.vertical_offset,
                height - 1 - self.vertical_offset,
                self.horizontal_offset + 1 - length,
            ),
            TimestampLocation::Bottom => (0, self.vertical_offset, self.horizontal_offset),
        };
        assert(canvas@ =~~= self.stem_drawn(old(canvas)@, 0));
        let mut i: usize = 0;
        while i < self.vertical_offset
            invariant
                i <= self.vertical_offset,
                self.vertical_offset < height,
                self.vertical_offset > 0 ==> self.horizontal_offset < canvas.columns(),
                start == self.stem_start(height as int),
                canvas.wf(),
                old(canvas).wf(),
                canvas.columns() == old(canvas).columns(),
                canvas.rows() == old(canvas).rows(),
                canvas.rows() == height,
                canvas@ == self.stem_drawn(old(canvas)@, i as int),
            decreases self.vertical_offset - i,
        {
            proof {
                reveal_strlit("|");
            }
            canvas.update_row(start + i, self.horizontal_offset, "|");
            i = i + 1;
            assert(canvas@ =~~= self.stem_drawn(old(canvas)@, i as int));
        }
        canvas.update_row(row, column, label);
        assert(canvas@ =~~= self.drawn(old(canvas)@, label@));
    }

    /// Draws the marker with the date and time of its timestamp as label.
    pub fn render(&self, canvas: &mut Canvas)
        requires
            old(canvas).wf(),
            self.can_render(old(canvas)),
        ensures
            final(canvas).wf(),
            final(canvas).columns() == old(canvas).columns(),
            final(canvas).rows() == old(canvas).rows(),
            final(canvas)@ == self.drawn(old(canvas)@, timestamp_label(self.timestamp)->0),
    {
        match format_timestamp(self.timestamp) {
            Some(label) => self.draw(canvas, label.as_str()),
            None => {},
        }
    }

    /// Draws the marker where `chrono` has a label for its timestamp and the
    /// marker fits the canvas with it; otherwise leaves the canvas as it is.
    /// Tells whether it drew.
    pub fn try_render(&self, canvas: &mut Canvas) -> (done: bool)
        requires
            old(canvas).wf(),
        ensures
            final(canvas).wf(),
            final(canvas).columns() == old(canvas).columns(),
            final(canvas).rows() == old(canvas).rows(),
            done == self.can_render(old(canvas)),
            done ==> final(canvas)@ == self.drawn(
                old(canvas)@,
                timestamp_label(self.timestamp)->0,
            ),
            !done ==> final(canvas)@ == old(canvas)@,
    {
        match format_timestamp(self.timestamp) {
            Some(label) => {
                let length: usize = label.as_str().unicode_len();
                if self.fits_canvas(canvas.width(), canvas.height(), length) {
                    self.render(canvas);
                    true
                } else {
                    false
                }
            },
            None => false,
        }
    }

    /// Whether the marker, with a label of `length` characters, lies within
    /// a canvas of `width` columns and `height` rows.
    pub fn fits_canvas(&self, width: usize, height: usize, length: usize) -> (fits: bool)
        ensures
            fits == self.fits(width as int, height as int, length as int),
    {
        if self.vertical_offset >= height {
            return false;
        }
        if self.vertical_offset > 0 && self.horizontal_offset >= width {
            return false;
        }
        match self.timestamp_location {
            TimestampLocation::Top => self.horizontal_offset < width && length
                <= self.horizontal_offset + 1,
            TimestampLocation::Bottom => self.horizontal_offset <= width && length <= width
                - self.horizontal_offset,
        }
    }
}

} // verus!
