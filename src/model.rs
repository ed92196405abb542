use vstd::prelude::*;

verus! {

/// Number of cells in one block.
pub const BLOCK_SIZE: usize = 2;

/// Cells of the paddle on each side of its centre.
pub const PADDLE_EXTRA: u8 = 2;

/// Number of cells of the paddle: `2 * PADDLE_EXTRA + 1`.
pub const PADDLE_LEN: usize = 5;

/// A grid cell, column `x` and row `y`; row 0 is the top of the field.
#[derive(Debug, Clone, Copy, PartialEq, Eq, Structural)]
pub struct Position {
    pub x: i16,
    pub y: i16,
}

/// The ball: where it is and where it moves each tick.
/// A velocity of `(0, 0)` means that the ball has not been served yet.
#[derive(Debug, Clone, Copy, PartialEq, Eq, Structural)]
pub struct Ball {
    pub position: Position,
    pub x_vel: i8,
    pub y_vel: i8,
}

/// A direction in which the paddle slides.
#[derive(Debug, Clone, Copy, PartialEq, Eq, Structural)]
pub enum Direction {
    Left,
    Right,
}

/// The colour of a block.
#[derive(Debug, Clone, Copy, PartialEq, Eq, Structural)]
pub enum Color {
    Red,
    Green,
    Blue,
    Yellow,
}

/// A horizontal run of `BLOCK_SIZE` adjacent cells of one row.
#[derive(Debug, Clone, Copy, PartialEq, Eq)]
pub struct Block {
    pub positions: [Position; BLOCK_SIZE],
    pub color: Color,
}

/// What one tick of the game reports.
#[derive(Debug, Clone, Copy, PartialEq, Eq)]
pub enum Event {
    /// The ball hit this block, which is gone.
    BlockDestroyed(Block),
    /// The ball has passed the paddle row.
    GameOver,
}

/// Why a game could not be created.
#[derive(Debug, Clone, Copy, PartialEq, Eq, Structural)]
pub enum GameError {
    /// The field is too narrow for two paddles or too low for blocks, a lane and a paddle.
    InvalidDimensions,
}

/// What a renderer shows in one cell.
#[derive(Debug, Clone, Copy, PartialEq, Eq, Structural)]
pub enum Cell {
    Ball,
    Block(Color),
    Paddle,
    Empty,
}

/// A cell as a pair of mathematical integers.
pub open spec fn at(p: Position) -> (int, int) {
    (p.x as int, p.y as int)
}

/// The colour of the `k`-th block of a fresh field: red, green, blue, yellow, and again.
pub open spec fn cycle_color(k: int) -> Color {
    if k % 4 == 0 {
        Color::Red
    } else if k % 4 == 1 {
        Color::Green
    } else if k % 4 == 2 {
        Color::Blue
    } else {
        Color::Yellow
    }
}

/// Row of a block.
pub open spec fn block_row(b: Block) -> int {
    b.positions@[0].y as int
}

/// Leftmost column of a block.
pub open spec fn block_left(b: Block) -> int {
    b.positions@[0].x as int
}

/// Rightmost column of a block.
pub open spec fn block_right(b: Block) -> int {
    b.positions@[BLOCK_SIZE - 1].x as int
}

/// Whether block `b` occupies cell `c` (for a well-formed block).
pub open spec fn block_covers(b: Block, c: (int, int)) -> bool {
    c.1 == block_row(b) && block_left(b) <= c.0 <= block_right(b)
}

/// A block is a contiguous same-row run inside the block area of a `width` x `height` field.
pub open spec fn block_wf(b: Block, width: int, height: int) -> bool {
    &&& forall|k: int|
        0 <= k < BLOCK_SIZE ==> #[trigger] b.positions@[k].x == block_left(b) + k
            && b.positions@[k].y == block_row(b)
    &&& 0 <= block_left(b)
    &&& block_right(b) < width
    &&& 0 <= block_row(b) < height / 2
}

/// Whether two blocks share a cell.
pub open spec fn blocks_overlap(a: Block, b: Block) -> bool {
    block_row(a) == block_row(b) && block_left(a) <= block_right(b) && block_left(b) <= block_right(
        a,
    )
}

/// No two blocks of `bs` share a cell.
pub open spec fn disjoint_blocks(bs: Seq<Block>) -> bool {
    forall|i: int, j: int|
        0 <= i < bs.len() && 0 <= j < bs.len() && i != j ==> !blocks_overlap(
            #[trigger] bs[i],
            #[trigger] bs[j],
        )
}

/// The block that a fresh field holds at row `row`, column pair `col`, as its `k`-th block.
pub open spec fn is_layout_block(b: Block, row: int, col: int, k: int) -> bool {
    &&& forall|i: int|
        0 <= i < BLOCK_SIZE ==> #[trigger] at(b.positions@[i]) == (BLOCK_SIZE * col + i, row)
    &&& b.color == cycle_color(k)
}

impl Color {
    /// The glyph that shows a block of this colour.
    pub fn to_string(&self) -> (r: char)
        ensures
            r == color_glyph(*self),
    {
        match self {
            Color::Red => '\u{1F7E5}',
            Color::Green => '\u{1F7E9}',
            Color::Blue => '\u{1F7E6}',
            Color::Yellow => '\u{1F7E8}',
        }
    }
}

/// Square glyphs of the four colours.
pub open spec fn color_glyph(c: Color) -> char {
    match c {
        Color::Red => '\u{1F7E5}',
        Color::Green => '\u{1F7E9}',
        Color::Blue => '\u{1F7E6}',
        Color::Yellow => '\u{1F7E8}',
    }
}

/// The colour that follows colour number `k` in the cycle red, green, blue, yellow.
pub fn color_for(k: u8) -> (c: Color)
    requires
        k < 4,
    ensures
        c == cycle_color(k as int),
{
    if k == 0 {
        Color::Red
    } else if k == 1 {
        Color::Green
    } else if k == 2 {
        Color::Blue
    } else {
        Color::Yellow
    }
}

/// The glyph of a cell: a black circle for the ball, the colour square of a block, a
/// black square for the paddle, nothing for an empty cell.
pub open spec fn cell_glyph(c: Cell) -> Option<char> {
    match c {
        Cell::Ball => Some('\u{26AB}'),
        Cell::Block(color) => Some(color_glyph(color)),
        Cell::Paddle => Some('\u{2B1B}'),
        Cell::Empty => None,
    }
}

impl Cell {
    /// The glyph that shows this cell, `None` for an empty one.
    pub fn glyph(&self) -> (r: Option<char>)
        ensures
            r == cell_glyph(*self),
    {
        match self {
            Cell::Ball => Some('\u{26AB}'),
            Cell::Block(color) => Some(color.to_string()),
            Cell::Paddle => Some('\u{2B1B}'),
            Cell::Empty => None,
        }
    }
}

} // verus!
