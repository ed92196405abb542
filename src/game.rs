use vstd::prelude::*;
use std::collections::VecDeque;
use crate::engine::{first_block_at, paddle_covers};
use crate::model::{Position, Ball, Block, Direction, GameError, Cell, BLOCK_SIZE, PADDLE_EXTRA, PADDLE_LEN, at, block_wf, is_layout_block, color_for, block_row, block_right, disjoint_blocks, blocks_overlap};

verus! {

/// Narrowest field: room for two paddles side by side.
pub const MIN_WIDTH: u8 = 10;

/// Lowest field: block rows, a lane for the ball and the paddle row.
pub const MIN_HEIGHT: u8 = 4;

/// The whole state of one game: ball, paddle, live blocks and the field's size.
#[derive(Debug)]
pub struct BreakoutGame {
    pub ball: Ball,
    pub player: VecDeque<Position>,
    pub blocks: Vec<Block>,
    pub width: u8,
    pub height: u8,
}

/// What a renderer needs of a game, copied out of it.
#[derive(Debug, PartialEq, Eq)]
pub struct Snapshot {
    pub ball: Position,
    pub paddle: Vec<Position>,
    pub blocks: Vec<Block>,
}

/// Whether width and height leave room for a game.
pub open spec fn dims_ok(width: int, height: int) -> bool {
    width >= MIN_WIDTH && height >= MIN_HEIGHT
}

/// The paddle: `PADDLE_LEN` contiguous cells of the bottom row, inside the field.
pub open spec fn paddle_wf(p: Seq<Position>, width: int, height: int) -> bool {
    &&& p.len() == PADDLE_LEN
    &&& forall|i: int|
        0 <= i < PADDLE_LEN ==> #[trigger] p[i].x == p[0].x + i && p[i].y == height - 1
    &&& 0 <= p[0].x
    &&& p[0].x + PADDLE_LEN <= width
}

/// Whether the ball has been served.
pub open spec fn is_stationary(b: Ball) -> bool {
    b.x_vel == 0 && b.y_vel == 0
}

/// A velocity component of one step at most.
pub open spec fn small(v: int) -> bool {
    -1 <= v <= 1
}

/// The ball stays in its column range; its row is inside the field, or just below
/// it once the game is over, which a resting ball never is. Each velocity component
/// is -1, 0 or 1.
pub open spec fn ball_wf(b: Ball, width: int, height: int) -> bool {
    &&& 0 <= b.position.x < width
    &&& 0 <= b.position.y <= height
    &&& small(b.x_vel as int)
    &&& small(b.y_vel as int)
    &&& is_stationary(b) ==> b.position.y < height
}

/// Whether the ball has passed the paddle row.
pub open spec fn is_over(b: Ball, height: int) -> bool {
    b.position.y >= height
}

impl BreakoutGame {
    /// The invariant of a game.
    pub open spec fn wf(&self) -> bool {
        &&& dims_ok(self.width as int, self.height as int)
        &&& paddle_wf(self.player@, self.width as int, self.height as int)
        &&& forall|i: int|
            0 <= i < self.blocks@.len() ==> block_wf(
                #[trigger] self.blocks@[i],
                self.width as int,
                self.height as int,
            )
        &&& disjoint_blocks(self.blocks@)
        &&& ball_wf(self.ball, self.width as int, self.height as int)
    }

    /// Blocks per row of a fresh field.
    pub open spec fn per_row(width: int) -> int {
        width / BLOCK_SIZE as int
    }

    /// The layout of a fresh `width` x `height` game.
    pub open spec fn is_fresh(&self, width: int, height: int) -> bool {
        let n = Self::per_row(width);
        &&& self.width == width
        &&& self.height == height
        &&& at(self.ball.position) == (width / 2, height - 2)
        &&& is_stationary(self.ball)
        &&& self.player@[0].x == width / 2 - PADDLE_EXTRA
        &&& self.blocks@.len() == (height / 2) * n
        &&& forall|r: int, c: int|
            0 <= r < height / 2 && 0 <= c < n ==> #[trigger] is_layout_block(
                self.blocks@[r * n + c],
                r,
                c,
                r * n + c,
            )
    }

    /// A fresh game on a `width` x `height` field: blocks fill the upper half row by
    /// row with colours cycling from red, the paddle is centred on the bottom row and
    /// the ball rests two rows above the bottom, in the middle column.
    pub fn new(width: u8, height: u8) -> (r: Result<Self, GameError>)
        ensures
            r is Ok <==> dims_ok(width as int, height as int),
            r is Err ==> r == Err::<Self, GameError>(GameError::InvalidDimensions),
            r matches Ok(g) ==> g.wf() && g.is_fresh(width as int, height as int),
    {
        if width < MIN_WIDTH || height < MIN_HEIGHT {
            return Err(GameError::InvalidDimensions);
        }
        let blocks = build_blocks(width, height);
        let mid: u8 = width / 2;
        let mut player: VecDeque<Position> = VecDeque::new();
        let mut i: u8 = 0;
        while i < PADDLE_LEN as u8
            invariant
                width >= MIN_WIDTH,
                height >= MIN_HEIGHT,
                mid == width / 2,
                i <= PADDLE_LEN,
                player@.len() == i,
                forall|k: int|
                    0 <= k < i ==> #[trigger] player@[k].x == mid - PADDLE_EXTRA + k
                        && player@[k].y == height - 1,
            decreases PADDLE_LEN - i,
        {
            let ghost before = player@;
            player.push_back(Position { x: (mid - PADDLE_EXTRA + i) as i16, y: (height - 1) as i16 });
            assert forall|k: int| 0 <= k < i + 1 implies #[trigger] player@[k].x == mid - PADDLE_EXTRA + k
                && player@[k].y == height - 1 by {
                if k < i {
                    assert(player@[k] == before[k]);
                }
            }
            i = i + 1;
        }
        let g = BreakoutGame {
            ball: Ball {
                position: Position { x: mid as i16, y: (height - 2) as i16 },
                x_vel: 0,
                y_vel: 0,
            },
            player,
            blocks,
            width,
            height,
        };
        Ok(g)
    }
}

impl BreakoutGame {
    /// Slides the paddle one cell towards `direction` when it stays inside the field,
    /// and serves a ball that has not moved yet: up and to the left for `Left`, up and
    /// to the right for `Right`.
    pub fn move_paddle(&mut self, direction: Direction)
        requires
            old(self).wf(),
        ensures
            final(self).wf(),
            final(self).width == old(self).width,
            final(self).height == old(self).height,
            final(self).blocks@ == old(self).blocks@,
            final(self).ball.position == old(self).ball.position,
            final(self).player@.len() == old(self).player@.len(),
            final(self).player@[0].x == paddle_left_after(
                old(self).player@[0].x as int,
                direction,
                old(self).width as int,
            ),
            is_stationary(old(self).ball) ==> (final(self).ball.x_vel, final(self).ball.y_vel)
                == serve_velocity(direction),
            !is_stationary(old(self).ball) ==> final(self).ball == old(self).ball,
    {
        let front = self.player[0].x;
        let back = self.player[PADDLE_LEN - 1].x;
        let row: i16 = (self.height - 1) as i16;
        let ghost p0 = self.player@;
        match direction {
            Direction::Left => {
                if self.ball.x_vel == 0 && self.ball.y_vel == 0 {
                    self.ball.x_vel = -1;
                    self.ball.y_vel = -1;
                }
                if front > 0 {
                    self.player.pop_back();
                    self.player.push_front(Position { x: front - 1, y: row });
                    assert(self.player@[0].x == p0[0].x - 1);
                    proof {
                        assert forall|i: int| 0 <= i < PADDLE_LEN implies #[trigger] self.player@[i].x
                            == self.player@[0].x + i && self.player@[i].y == self.height - 1 by {
                            if i > 0 {
                                assert(self.player@[i] == p0[i - 1]);
                                assert(p0[i - 1].x == p0[0].x + (i - 1));
                            }
                        }
                    }
                }
                assert(paddle_wf(self.player@, self.width as int, self.height as int));
                assert(ball_wf(self.ball, self.width as int, self.height as int));
            },
            Direction::Right => {
                if self.ball.x_vel == 0 && self.ball.y_vel == 0 {
                    self.ball.x_vel = 1;
                    self.ball.y_vel = -1;
                }
                if back < (self.width - 1) as i16 {
                    self.player.pop_front();
                    self.player.push_back(Position { x: back + 1, y: row });
                    proof {
                        assert forall|i: int| 0 <= i < PADDLE_LEN implies #[trigger] self.player@[i].x
                            == self.player@[0].x + i && self.player@[i].y == self.height - 1 by {
                            if i < PADDLE_LEN - 1 {
                                assert(self.player@[i] == p0[i + 1]);
                                assert(p0[i + 1].x == p0[0].x + (i + 1));
                            }
                        }
                    }
                }
            },
        }
    }
}

impl Snapshot {
    /// Whether this snapshot shows game `g`: its ball cell, its paddle cells and its
    /// live blocks, in order.
    pub open spec fn shows(&self, g: &BreakoutGame) -> bool {
        &&& self.ball == g.ball.position
        &&& self.paddle@ == g.player@
        &&& self.blocks@ == g.blocks@
    }
}

/// Two snapshots of one game, taken with no move or tick between them, are equal.
pub proof fn snapshot_idempotent(g: &BreakoutGame, s1: &Snapshot, s2: &Snapshot)
    requires
        s1.shows(g),
        s2.shows(g),
    ensures
        s1.ball == s2.ball,
        s1.paddle@ == s2.paddle@,
        s1.blocks@ == s2.blocks@,
{
}

/// In every well-formed game, in particular after any sequence of paddle moves, the
/// paddle has `PADDLE_LEN` cells, all inside the field on its bottom row.
pub proof fn paddle_in_field(g: &BreakoutGame)
    requires
        g.wf(),
    ensures
        g.player@.len() == PADDLE_LEN,
        forall|i: int|
            0 <= i < g.player@.len() ==> 0 <= #[trigger] g.player@[i].x < g.width && g.player@[i].y
                == g.height - 1,
{
    assert forall|i: int| 0 <= i < g.player@.len() implies 0 <= #[trigger] g.player@[i].x < g.width
        && g.player@[i].y == g.height - 1 by {
        assert(g.player@[i].x == g.player@[0].x + i);
    }
}

/// What a renderer shows at cell `c` of game `g`: the ball first, then the first
/// block covering it, then the paddle.
pub open spec fn cell_of(g: &BreakoutGame, c: (int, int)) -> Cell {
    if at(g.ball.position) == c {
        Cell::Ball
    } else {
        match first_block_at(g.blocks@, c, 0) {
            Some(i) => if 0 <= i < g.blocks@.len() {
                Cell::Block(g.blocks@[i].color)
            } else {
                Cell::Empty
            },
            None => if paddle_covers(g.player@, c) {
                Cell::Paddle
            } else {
                Cell::Empty
            },
        }
    }
}

impl BreakoutGame {
    /// A copy of what a renderer needs: ball, paddle and live blocks.
    pub fn snapshot(&self) -> (s: Snapshot)
        ensures
            s.shows(self),
    {
        let mut paddle: Vec<Position> = Vec::new();
        let mut i: usize = 0;
        while i < self.player.len()
            invariant
                i <= self.player@.len(),
                paddle@ == self.player@.subrange(0, i as int),
            decreases self.player@.len() - i,
        {
            paddle.push(self.player[i]);
            i = i + 1;
            assert(paddle@ =~= self.player@.subrange(0, i as int));
        }
        assert(paddle@ =~= self.player@);
        let mut blocks: Vec<Block> = Vec::new();
        let mut k: usize = 0;
        while k < self.blocks.len()
            invariant
                k <= self.blocks@.len(),
                blocks@ == self.blocks@.subrange(0, k as int),
            decreases self.blocks@.len() - k,
        {
            blocks.push(self.blocks[k]);
            k = k + 1;
            assert(blocks@ =~= self.blocks@.subrange(0, k as int));
        }
        assert(blocks@ =~= self.blocks@);
        Snapshot { ball: self.ball.position, paddle, blocks }
    }

    /// Every cell of the field, row by row from the top, each row left to right.
    pub fn pos_iter(&self) -> (r: Vec<Position>)
        ensures
            r@.len() == self.height * self.width,
            forall|y: int, x: int|
                0 <= y < self.height && 0 <= x < self.width ==> at(
                    #[trigger] r@[y * self.width + x],
                ) == (x, y),
    {
        let w: u8 = self.width;
        let h: u8 = self.height;
        let mut r: Vec<Position> = Vec::new();
        let mut y: u8 = 0;
        while y < h
            invariant
                w == self.width,
                h == self.height,
                y <= h,
                r@.len() == y * w,
                forall|yy: int, xx: int|
                    0 <= yy < y && 0 <= xx < w ==> at(#[trigger] r@[yy * w + xx]) == (xx, yy),
            decreases h - y,
        {
            let mut x: u8 = 0;
            while x < w
                invariant
                    w == self.width,
                    h == self.height,
                    y < h,
                    x <= w,
                    r@.len() == y * w + x,
                    forall|yy: int, xx: int|
                        0 <= yy < y && 0 <= xx < w ==> at(#[trigger] r@[yy * w + xx]) == (xx, yy),
                    forall|xx: int| 0 <= xx < x ==> at(#[trigger] r@[y * w + xx]) == (xx, y as int),
                decreases w - x,
            {
                assert(y * w + x < 255 * 255) by (nonlinear_arith)
                    requires y < h, x < w, h <= 255, w <= 255;
                let ghost before = r@;
                r.push(Position { x: x as i16, y: y as i16 });
                assert forall|yy: int, xx: int|
                    0 <= yy < y && 0 <= xx < w implies at(#[trigger] r@[yy * w + xx]) == (xx, yy) by {
                    assert(yy * w + xx < y * w) by (nonlinear_arith)
                        requires yy < y, xx < w, 0 <= yy, 0 <= xx;
                    assert(r@[yy * w + xx] == before[yy * w + xx]);
                }
                assert forall|xx: int| 0 <= xx < x + 1 implies at(#[trigger] r@[y * w + xx]) == (
                    xx,
                    y as int,
                ) by {
                    if xx < x {
                        assert(r@[y * w + xx] == before[y * w + xx]);
                    }
                }
                x = x + 1;
            }
            assert((y + 1) * w == y * w + w) by (nonlinear_arith);
            y = y + 1;
        }
        r
    }

    /// What a renderer shows at cell `pos`.
    pub fn cell_at(&self, pos: Position) -> (r: Cell)
        ensures
            r == cell_of(self, at(pos)),
    {
        if self.ball.position.x == pos.x && self.ball.position.y == pos.y {
            return Cell::Ball;
        }
        let mut i: usize = 0;
        while i < self.blocks.len()
            invariant
                i <= self.blocks@.len(),
                at(self.ball.position) != at(pos),
                first_block_at(self.blocks@, at(pos), 0) == first_block_at(self.blocks@, at(pos), i as int),
            decreases self.blocks@.len() - i,
        {
            let b = &self.blocks[i];
            if b.positions[0].y == pos.y && b.positions[0].x <= pos.x && pos.x <= b.positions[BLOCK_SIZE - 1].x {
                return Cell::Block(b.color);
            }
            i = i + 1;
        }
        if self.paddle_hit(pos) {
            Cell::Paddle
        } else {
            Cell::Empty
        }
    }
}

/// Leftmost paddle column after a move from `left` towards `d` in a field `width` wide.
pub open spec fn paddle_left_after(left: int, d: Direction, width: int) -> int {
    match d {
        Direction::Left => if left > 0 { left - 1 } else { left },
        Direction::Right => if left + PADDLE_LEN < width { left + 1 } else { left },
    }
}

/// The velocity of a ball served by a paddle move towards `d`.
pub open spec fn serve_velocity(d: Direction) -> (i8, i8) {
    match d {
        Direction::Left => (-1i8, -1i8),
        Direction::Right => (1i8, -1i8),
    }
}

/// The blocks of a fresh field, row by row and left to right.
fn build_blocks(width: u8, height: u8) -> (blocks: Vec<Block>)
    requires
        dims_ok(width as int, height as int),
    ensures
        blocks@.len() == (height / 2) * BreakoutGame::per_row(width as int),
        forall|i: int|
            0 <= i < blocks@.len() ==> block_wf(#[trigger] blocks@[i], width as int, height as int),
        disjoint_blocks(blocks@),
        forall|r: int, c: int|
            0 <= r < height / 2 && 0 <= c < BreakoutGame::per_row(width as int)
                ==> #[trigger] is_layout_block(
                blocks@[r * BreakoutGame::per_row(width as int) + c],
                r,
                c,
                r * BreakoutGame::per_row(width as int) + c,
            ),
{
    let rows: u8 = height / 2;
    let n: u8 = width / (BLOCK_SIZE as u8);
    let ghost gn = BreakoutGame::per_row(width as int);
    assert(n == gn);
    let mut blocks: Vec<Block> = Vec::new();
    let mut color_counter: u8 = 0;
    let mut i: u8 = 0;
    while i < rows
        invariant
            dims_ok(width as int, height as int),
            rows == height / 2,
            n == gn,
            gn == BreakoutGame::per_row(width as int),
            i <= rows,
            blocks@.len() == i * n,
            color_counter == blocks@.len() % 4,
            forall|k: int|
                0 <= k < blocks@.len() ==> block_wf(#[trigger] blocks@[k], width as int, height as int),
            disjoint_blocks(blocks@),
            forall|k: int| 0 <= k < blocks@.len() ==> block_row(#[trigger] blocks@[k]) < i,
            forall|r: int, c: int|
                0 <= r < i && 0 <= c < n ==> #[trigger] is_layout_block(
                    blocks@[r * gn + c],
                    r,
                    c,
                    r * gn + c,
                ),
        decreases rows - i,
    {
        let mut j: u8 = 0;
        while j < n
            invariant
                dims_ok(width as int, height as int),
                rows == height / 2,
                n == gn,
                gn == BreakoutGame::per_row(width as int),
                i < rows,
                j <= n,
                blocks@.len() == i * n + j,
                color_counter == blocks@.len() % 4,
                forall|k: int|
                    0 <= k < blocks@.len() ==> block_wf(#[trigger] blocks@[k], width as int, height as int),
                disjoint_blocks(blocks@),
                forall|k: int|
                    0 <= k < blocks@.len() ==> block_row(#[trigger] blocks@[k]) < i || (block_row(
                        blocks@[k],
                    ) == i && block_right(blocks@[k]) < BLOCK_SIZE * j),
                forall|r: int, c: int|
                    0 <= r < i && 0 <= c < n ==> #[trigger] is_layout_block(
                        blocks@[r * gn + c],
                        r,
                        c,
                        r * gn + c,
                    ),
                forall|c: int|
                    0 <= c < j ==> #[trigger] is_layout_block(
                        blocks@[i * gn + c],
                        i as int,
                        c,
                        i * gn + c,
                    ),
            decreases n - j,
        {
            assert(i * n + j < rows * n) by (nonlinear_arith)
                requires i < rows, j < n;
            assert(rows * n <= 127 * 127) by (nonlinear_arith)
                requires rows <= 127, n <= 127;
            let left: i16 = (j as i16) * (BLOCK_SIZE as i16);
            let row: i16 = i as i16;
            let block = Block {
                positions: [Position { x: left, y: row }, Position { x: left + 1, y: row }],
                color: color_for(color_counter),
            };
            let ghost old_blocks = blocks@;
            blocks.push(block);
            proof {
                assert(block.positions@ == seq![Position { x: left, y: row }, Position { x: (left + 1) as i16, y: row }]);
                assert(block_wf(block, width as int, height as int));
                assert(is_layout_block(block, i as int, j as int, i * gn + j));
                assert forall|a: int, b: int|
                    0 <= a < blocks@.len() && 0 <= b < blocks@.len() && a != b implies !blocks_overlap(
                        #[trigger] blocks@[a],
                        #[trigger] blocks@[b],
                    ) by {
                    if a < old_blocks.len() && b < old_blocks.len() {
                        assert(blocks@[a] == old_blocks[a]);
                        assert(blocks@[b] == old_blocks[b]);
                    } else if a < old_blocks.len() {
                        assert(blocks@[a] == old_blocks[a]);
                    } else {
                        assert(blocks@[b] == old_blocks[b]);
                    }
                }
                assert forall|k: int| 0 <= k < blocks@.len() implies block_row(#[trigger] blocks@[k]) < i
                    || (block_row(blocks@[k]) == i && block_right(blocks@[k]) < BLOCK_SIZE * (j + 1)) by {
                    if k < old_blocks.len() {
                        assert(blocks@[k] == old_blocks[k]);
                    }
                }
                assert forall|r: int, c: int|
                    0 <= r < i && 0 <= c < n implies #[trigger] is_layout_block(
                        blocks@[r * gn + c],
                        r,
                        c,
                        r * gn + c,
                    ) by {
                    assert(r * gn + c < i * gn) by (nonlinear_arith)
                        requires r < i, c < gn, 0 <= r, 0 <= c;
                    assert(blocks@[r * gn + c] == old_blocks[r * gn + c]);
                }
                assert forall|c: int|
                    0 <= c < j + 1 implies #[trigger] is_layout_block(
                        blocks@[i * gn + c],
                        i as int,
                        c,
                        i * gn + c,
                    ) by {
                    if c < j {
                        assert(blocks@[i * gn + c] == old_blocks[i * gn + c]);
                    }
                }
            }
            color_counter = if color_counter == 3 { 0 } else { color_counter + 1 };
            j = j + 1;
        }
        proof {
            assert forall|r: int, c: int|
                0 <= r < i + 1 && 0 <= c < n implies #[trigger] is_layout_block(
                    blocks@[r * gn + c],
                    r,
                    c,
                    r * gn + c,
                ) by {
                if r == i {
                    assert(is_layout_block(blocks@[i * gn + c], i as int, c, i * gn + c));
                }
            }
            assert((i + 1) * n == i * n + n) by (nonlinear_arith);
        }
        i = i + 1;
    }
    blocks
}

} // verus!
