//! A picture of the maze in text. Each row of cells is a line: `P` for the
//! player's cell, `E` for the end cell, `.` for any other, with a space
//! between two connected cells and `|` between two that are not. Between
//! two rows of cells stands a line with two spaces under a cell connected
//! to the one below it, and `--` under one that is not.

use crate::grid::Position;
use crate::maze::Maze;
use vstd::prelude::*;
use vstd::string::StringExecFns;

verus! {

/// The lines that stand above the picture.
pub open spec fn legend() -> Seq<char> {
    "\nMaze Legend: P=Player, E=Exit, . = Path, # = Wall\n\n"@
}

impl Maze {
    /// The character that stands for the cell `pos`.
    pub open spec fn cell_glyph(&self, pos: Position) -> char {
        if pos == self.player() {
            'P'
        } else if pos == self.end() {
            'E'
        } else {
            '.'
        }
    }

    /// The character between the cell `pos` and the cell `east` of it.
    pub open spec fn gap_glyph(&self, pos: Position, east: Position) -> char {
        if self.connections().contains((pos, east)) {
            ' '
        } else {
            '|'
        }
    }

    /// The character, written twice, under the cell `pos`, between it and
    /// the cell `south` of it.
    pub open spec fn floor_glyph(&self, pos: Position, south: Position) -> char {
        if self.connections().contains((pos, south)) {
            ' '
        } else {
            '-'
        }
    }

    /// The line for the cells of row `y`, as far as it stands for the first
    /// `upto` columns, without its line break.
    pub open spec fn cells_text(&self, y: usize, upto: nat) -> Seq<char>
        decreases upto,
    {
        if upto == 0 {
            Seq::empty()
        } else {
            let pos = Position { x: (upto - 1) as usize, y };
            let east = Position { x: upto as usize, y };
            let cell = self.cells_text(y, (upto - 1) as nat).push(self.cell_glyph(pos));
            if upto < self.width() {
                cell.push(self.gap_glyph(pos, east))
            } else {
                cell
            }
        }
    }

    /// The line between row `y` and the row below it, as far as it stands
    /// for the first `upto` columns, without its line break.
    pub open spec fn floor_text(&self, y: usize, upto: nat) -> Seq<char>
        decreases upto,
    {
        if upto == 0 {
            Seq::empty()
        } else {
            let pos = Position { x: (upto - 1) as usize, y };
            let south = Position { x: (upto - 1) as usize, y: (y + 1) as usize };
            let glyph = self.floor_glyph(pos, south);
            self.floor_text(y, (upto - 1) as nat).push(glyph).push(glyph)
        }
    }

    /// The lines for the first `upto` rows.
    pub open spec fn rows_text(&self, upto: nat) -> Seq<char>
        decreases upto,
    {
        if upto == 0 {
            Seq::empty()
        } else {
            let y = (upto - 1) as usize;
            let cells = (self.rows_text((upto - 1) as nat) + self.cells_text(
                y,
                self.width() as nat,
            )).push('\n');
            if upto < self.height() {
                (cells + self.floor_text(y, self.width() as nat)).push('\n')
            } else {
                cells
            }
        }
    }

    /// The whole picture: the legend, then the rows.
    pub open spec fn picture(&self) -> Seq<char> {
        legend() + self.rows_text(self.height() as nat)
    }

    /// Appends to `out` the line for the cells of row `y`.
    fn render_cells(&self, y: usize, out: &mut String)
        requires
            y < self.height(),
        ensures
            final(out)@ == old(out)@ + self.cells_text(y, self.width() as nat),
    {
        let width = self.width();
        let player = self.player();
        let end = self.end();
        let mut x: usize = 0;
        while x < width
            invariant
                width == self.width(),
                player == self.player(),
                end == self.end(),
                x <= width,
                out@ == old(out)@ + self.cells_text(y, x as nat),
            decreases width - x,
        {
            let pos = Position { x, y };
            proof {
                reveal_strlit("P");
                reveal_strlit("E");
                reveal_strlit(".");
                reveal_strlit(" ");
                reveal_strlit("|");
            }
            if pos == player {
                out.append("P");
            } else if pos == end {
                out.append("E");
            } else {
                out.append(".");
            }
            if x < width - 1 {
                let east = Position { x: x + 1, y };
                if self.is_connected(pos, east) {
                    out.append(" ");
                } else {
                    out.append("|");
                }
            }
            x += 1;
        }
    }

    /// Appends to `out` the line between row `y` and the row below it.
    fn render_floor(&self, y: usize, out: &mut String)
        requires
            y < self.height() - 1,
        ensures
            final(out)@ == old(out)@ + self.floor_text(y, self.width() as nat),
    {
        let width = self.width();
        let mut x: usize = 0;
        while x < width
            invariant
                width == self.width(),
                y < self.height() - 1,
                x <= width,
                out@ == old(out)@ + self.floor_text(y, x as nat),
            decreases width - x,
        {
            let pos = Position { x, y };
            let south = Position { x, y: y + 1 };
            proof {
                reveal_strlit("  ");
                reveal_strlit("--");
            }
            if self.is_connected(pos, south) {
                out.append("  ");
            } else {
                out.append("--");
            }
            x += 1;
        }
    }

    /// Draws the maze.
    pub fn render(&self) -> (out: String)
        ensures
            out@ == self.picture(),
    {
        let height = self.height();
        let mut out = String::new();
        out.append("\nMaze Legend: P=Player, E=Exit, . = Path, # = Wall\n\n");
        let mut y: usize = 0;
        while y < height
            invariant
                height == self.height(),
                y <= height,
                out@ == legend() + self.rows_text(y as nat),
            decreases height - y,
        {
            proof {
                reveal_strlit("\n");
            }
            self.render_cells(y, &mut out);
            out.append("\n");
            if y < height - 1 {
                self.render_floor(y, &mut out);
                out.append("\n");
            }
            y += 1;
        }
        out
    }
}

} // verus!
