//! The tile grid and the symbol-to-color lookup.
use vstd::prelude::*;

verus! {

/// An RGB color, one byte per channel.
#[derive(Clone, Copy, Debug, PartialEq, Eq, Structural)]
pub struct Color {
    pub r: u8,
    pub g: u8,
    pub b: u8,
}

/// The symbol of an empty, passable tile.
pub const EMPTY: char = ' ';

/// The color of a tile symbol: `'1'` magenta, `'2'` cyan, any other yellow.
pub open spec fn color_spec(symbol: char) -> Color {
    match symbol {
        '1' => Color { r: 255, g: 0, b: 255 },
        '2' => Color { r: 0, g: 255, b: 255 },
        _ => Color { r: 255, g: 255, b: 0 },
    }
}

/// The color that walls of the given symbol are drawn in.
pub fn color_for(symbol: char) -> (c: Color)
    ensures
        c == color_spec(symbol),
{
    match symbol {
        '1' => Color { r: 255, g: 0, b: 255 },
        '2' => Color { r: 0, g: 255, b: 255 },
        _ => Color { r: 255, g: 255, b: 0 },
    }
}

/// Why a map text was refused.
#[derive(Clone, Copy, Debug, PartialEq, Eq, Structural)]
pub enum MapError {
    /// Without its newlines the text holds `found` symbols, not width times height.
    WrongLength { found: usize },
}

/// The text with every newline removed.
pub open spec fn strip_newlines(text: Seq<char>) -> Seq<char>
    decreases text.len(),
{
    if text.len() == 0 {
        Seq::empty()
    } else {
        let rest = strip_newlines(text.drop_last());
        if text.last() == '\n' {
            rest
        } else {
            rest.push(text.last())
        }
    }
}

/// An immutable row-major grid of tile symbols.
#[derive(Clone, Debug)]
pub struct TileMap {
    pub width: usize,
    pub height: usize,
    pub tiles: Vec<char>,
}

impl TileMap {
    /// The grid holds exactly one symbol per cell.
    pub open spec fn wf(&self) -> bool {
        self.tiles@.len() == self.width * self.height
    }

    /// The symbol of cell (`col`, `row`).
    pub open spec fn tile(&self, col: int, row: int) -> char {
        self.tiles@[col + row * self.width]
    }

    /// Whether (`col`, `row`) lies inside the grid.
    pub open spec fn in_grid(&self, col: int, row: int) -> bool {
        0 <= col < self.width && 0 <= row < self.height
    }

    /// A map from its symbols in row-major order; `None` unless there are
    /// exactly `width * height` of them.
    pub fn new(width: usize, height: usize, tiles: Vec<char>) -> (r: Option<TileMap>)
        ensures
            r is Some <==> tiles@.len() == width * height,
            r matches Some(m) ==> m.wf() && m.width == width && m.height == height
                && m.tiles@ == tiles@,
    {
        let count = tiles.len();
        match width.checked_mul(height) {
            Some(n) => {
                if count == n {
                    Some(TileMap { width, height, tiles })
                } else {
                    None
                }
            },
            None => None,
        }
    }

    /// A map from the text of a map file: newlines are dropped and the
    /// remaining symbols, row by row, must fill the grid exactly.
    pub fn from_text(text: &Vec<char>, width: usize, height: usize) -> (r: Result<
        TileMap,
        MapError,
    >)
        ensures
            r is Ok <==> strip_newlines(text@).len() == width * height,
            r matches Ok(m) ==> m.wf() && m.width == width && m.height == height
                && m.tiles@ == strip_newlines(text@),
            r matches Err(MapError::WrongLength { found }) ==> found == strip_newlines(
                text@,
            ).len(),
    {
        let mut symbols: Vec<char> = Vec::new();
        let mut i: usize = 0;
        while i < text.len()
            invariant
                i <= text@.len(),
                symbols@ == strip_newlines(text@.subrange(0, i as int)),
            decreases text.len() - i,
        {
            let ch = text[i];
            proof {
                assert(text@.subrange(0, i + 1).drop_last() == text@.subrange(0, i as int));
            }
            if ch != '\n' {
                symbols.push(ch);
            }
            i = i + 1;
        }
        proof {
            assert(text@.subrange(0, text@.len() as int) == text@);
        }
        let found = symbols.len();
        match TileMap::new(width, height, symbols) {
            Some(m) => Ok(m),
            None => Err(MapError::WrongLength { found }),
        }
    }

    /// The symbol of cell (`col`, `row`), which must lie inside the grid.
    pub fn tile_at(&self, col: usize, row: usize) -> (s: char)
        requires
            self.wf(),
            col < self.width,
            row < self.height,
        ensures
            s == self.tile(col as int, row as int),
    {
        let cells = self.tiles.len();
        proof {
            lemma_cell_index(self.width as int, self.height as int, col as int, row as int);
        }
        assert(col + row * self.width < cells);
        self.tiles[col + row * self.width]
    }
}

/// A cell inside a `width` by `height` grid has a row-major index below
/// `width * height`.
pub proof fn lemma_cell_index(width: int, height: int, col: int, row: int)
    requires
        0 <= col < width,
        0 <= row < height,
    ensures
        0 <= col + row * width < width * height,
{
    assert(row * width <= (height - 1) * width) by (nonlinear_arith)
        requires
            row <= height - 1,
            width > 0,
    ;
    assert((height - 1) * width == width * height - width) by (nonlinear_arith);
    assert(0 <= row * width) by (nonlinear_arith)
        requires
            row >= 0,
            width > 0,
    ;
}

} // verus!
