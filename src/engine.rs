//! One tick of the game: the ball moves one cell, reflecting off walls, the paddle
//! and blocks; blocks that it touches are destroyed, possibly several in one tick.
use vstd::prelude::*;
use crate::model::{Position, Ball, Block, Event, BLOCK_SIZE, at, block_covers, block_row, block_left, block_right, block_wf, disjoint_blocks, blocks_overlap};
use crate::game::{BreakoutGame, is_over, is_stationary, small};

verus! {

/// Velocity of the ball and the cell it aims at, while a tick is resolved.
pub struct Motion {
    pub vx: int,
    pub vy: int,
    pub nx: int,
    pub ny: int,
}

/// Cells as integer pairs.
pub open spec fn cells_of(s: Seq<Position>) -> Seq<(int, int)> {
    s.map_values(|p: Position| at(p))
}

/// The cells that a ball at `(x, y)` passes on its way: the horizontal neighbour it
/// moves towards, the vertical neighbour it moves towards, then the aimed cell.
pub open spec fn probe_cells(x: int, y: int, m: Motion) -> Seq<(int, int)> {
    (if m.vx != 0 { seq![(x + m.vx, y)] } else { seq![] }) + (if m.vy != 0 {
        seq![(x, y + m.vy)]
    } else {
        seq![]
    }) + seq![(m.nx, m.ny)]
}

/// Index of the first block at or after `from` that covers `c`.
pub open spec fn first_block_at(blocks: Seq<Block>, c: (int, int), from: int) -> Option<int>
    decreases blocks.len() - from,
{
    if from < 0 || from >= blocks.len() {
        None
    } else if block_covers(blocks[from], c) {
        Some(from)
    } else {
        first_block_at(blocks, c, from + 1)
    }
}

/// Index of the block hit through the cells from `from` on: the first cell that any
/// block covers decides, and among the blocks covering it the first one.
pub open spec fn first_hit(blocks: Seq<Block>, cells: Seq<(int, int)>, from: int) -> Option<int>
    decreases cells.len() - from,
{
    if from < 0 || from >= cells.len() {
        None
    } else {
        match first_block_at(blocks, cells[from], 0) {
            Some(i) => Some(i),
            None => first_hit(blocks, cells, from + 1),
        }
    }
}

/// How a ball at `(x, y)` turns after hitting block `b`: coming from the side it
/// reverses horizontally, coming from another row it reverses vertically; a reversed
/// component aims from the ball's cell again.
pub open spec fn bounce(x: int, y: int, m: Motion, b: Block) -> Motion {
    let side = x < block_left(b) || x > block_right(b);
    let vert = block_row(b) != y;
    let vx = if side { -m.vx } else { m.vx };
    let vy = if vert { -m.vy } else { m.vy };
    Motion {
        vx,
        vy,
        nx: if side { x + vx } else { m.nx },
        ny: if vert { y + vy } else { m.ny },
    }
}

/// Block collisions of one tick: the final motion, the blocks left and the blocks
/// destroyed in order. Each hit removes one block and the new course is tested again.
pub open spec fn resolve(x: int, y: int, m: Motion, blocks: Seq<Block>) -> (Motion, Seq<Block>, Seq<Block>)
    decreases blocks.len(),
{
    match first_hit(blocks, probe_cells(x, y, m), 0) {
        Some(i) => if 0 <= i < blocks.len() {
            let r = resolve(x, y, bounce(x, y, m, blocks[i]), blocks.remove(i));
            (r.0, r.1, seq![blocks[i]] + r.2)
        } else {
            (m, blocks, seq![])
        },
        None => (m, blocks, seq![]),
    }
}

/// Whether some paddle cell is `c`.
pub open spec fn paddle_covers(p: Seq<Position>, c: (int, int)) -> bool {
    exists|i: int| 0 <= i < p.len() && at(#[trigger] p[i]) == c
}

/// The outcome of one tick.
pub struct Step {
    pub x: int,
    pub y: int,
    pub vx: int,
    pub vy: int,
    pub blocks: Seq<Block>,
    pub destroyed: Seq<Block>,
    pub over: bool,
}

/// Velocity and aimed column after the side walls: a ball that would leave the
/// field reverses horizontally.
pub open spec fn wall_x(x: int, vx: int, width: int) -> (int, int) {
    if x + vx < 0 || x + vx >= width {
        (-vx, x - vx)
    } else {
        (vx, x + vx)
    }
}

/// Velocity and aimed row after the ceiling and the paddle: a ball that would pass
/// the top, or enter a paddle cell, reverses vertically.
pub open spec fn wall_y(y: int, vy: int, nx: int, paddle: Seq<Position>) -> (int, int) {
    if y + vy < 0 || paddle_covers(paddle, (nx, y + vy)) {
        (-vy, y - vy)
    } else {
        (vy, y + vy)
    }
}

/// One tick from game `g`. A game that is over stays as it is. A ball that passes the
/// paddle row ends the game there, before any block is tested. Otherwise blocks are
/// resolved; where that would carry the ball out of the field on one axis, it keeps
/// its coordinate on that axis.
pub open spec fn step_of(g: &BreakoutGame) -> Step {
    let b = g.ball;
    let x = b.position.x as int;
    let y = b.position.y as int;
    let w = g.width as int;
    let h = g.height as int;
    if is_over(b, h) {
        Step { x, y, vx: b.x_vel as int, vy: b.y_vel as int, blocks: g.blocks@, destroyed: seq![], over: true }
    } else {
        let (vx1, nx1) = wall_x(x, b.x_vel as int, w);
        let (vy1, ny1) = wall_y(y, b.y_vel as int, nx1, g.player@);
        if ny1 >= h {
            Step { x: nx1, y: ny1, vx: vx1, vy: vy1, blocks: g.blocks@, destroyed: seq![], over: true }
        } else {
            let r = resolve(x, y, Motion { vx: vx1, vy: vy1, nx: nx1, ny: ny1 }, g.blocks@);
            Step {
                x: if 0 <= r.0.nx < w { r.0.nx } else { x },
                y: if 0 <= r.0.ny < h { r.0.ny } else { y },
                vx: r.0.vx,
                vy: r.0.vy,
                blocks: r.1,
                destroyed: r.2,
                over: false,
            }
        }
    }
}

/// Events for destroyed blocks, in order.
pub open spec fn destroyed_events(d: Seq<Block>) -> Seq<Event> {
    d.map_values(|b: Block| Event::BlockDestroyed(b))
}

/// What a tick reports: the blocks destroyed, or that the game is over.
pub open spec fn events_of(s: Step) -> Seq<Event> {
    if s.over {
        seq![Event::GameOver]
    } else {
        destroyed_events(s.destroyed)
    }
}

/// The motion held by ball `b` aiming at `next`.
pub open spec fn motion_of(b: Ball, next: Position) -> Motion {
    Motion { vx: b.x_vel as int, vy: b.y_vel as int, nx: next.x as int, ny: next.y as int }
}

impl BreakoutGame {
    /// The cells that the ball passes on its way to `next_ball_pos`, as `probe_cells` lists them.
    fn get_positions_to_check(&self, next_ball_pos: Position) -> (r: Vec<Position>)
        requires
            0 <= self.ball.position.x <= 255,
            0 <= self.ball.position.y <= 255,
            small(self.ball.x_vel as int),
            small(self.ball.y_vel as int),
        ensures
            cells_of(r@) == probe_cells(
                self.ball.position.x as int,
                self.ball.position.y as int,
                motion_of(self.ball, next_ball_pos),
            ),
    {
        let ghost m = motion_of(self.ball, next_ball_pos);
        let ghost x = self.ball.position.x as int;
        let ghost y = self.ball.position.y as int;
        let mut positions_to_check: Vec<Position> = Vec::new();
        if self.ball.x_vel != 0 {
            positions_to_check.push(
                Position { x: self.ball.position.x + self.ball.x_vel as i16, y: self.ball.position.y },
            );
        }
        let ghost part1 = positions_to_check@;
        assert(cells_of(part1) =~= (if m.vx != 0 { seq![(x + m.vx, y)] } else { seq![] }));
        if self.ball.y_vel != 0 {
            positions_to_check.push(
                Position { x: self.ball.position.x, y: self.ball.position.y + self.ball.y_vel as i16 },
            );
        }
        let ghost part2 = positions_to_check@;
        assert(cells_of(part2) =~= cells_of(part1) + (if m.vy != 0 {
            seq![(x, y + m.vy)]
        } else {
            seq![]
        }));
        positions_to_check.push(next_ball_pos);
        assert(cells_of(positions_to_check@) =~= cells_of(part2) + seq![(m.nx, m.ny)]);
        positions_to_check
    }

    /// Index of the first live block covering cell `c`.
    fn block_at(&self, c: Position) -> (r: Option<usize>)
        ensures
            r is None <==> first_block_at(self.blocks@, at(c), 0) is None,
            r matches Some(i) ==> first_block_at(self.blocks@, at(c), 0) == Some(i as int)
                && i < self.blocks@.len(),
    {
        let mut i: usize = 0;
        while i < self.blocks.len()
            invariant
                i <= self.blocks@.len(),
                first_block_at(self.blocks@, at(c), 0) == first_block_at(self.blocks@, at(c), i as int),
            decreases self.blocks@.len() - i,
        {
            let b = &self.blocks[i];
            if b.positions[0].y == c.y && b.positions[0].x <= c.x && c.x <= b.positions[BLOCK_SIZE - 1].x {
                return Some(i);
            }
            i = i + 1;
        }
        None
    }

    /// Index of the block hit through `probes`, as `first_hit` picks it.
    fn hit_index(&self, probes: &Vec<Position>) -> (r: Option<usize>)
        ensures
            r is None <==> first_hit(self.blocks@, cells_of(probes@), 0) is None,
            r matches Some(i) ==> first_hit(self.blocks@, cells_of(probes@), 0) == Some(i as int)
                && i < self.blocks@.len(),
    {
        let mut p: usize = 0;
        while p < probes.len()
            invariant
                p <= probes@.len(),
                first_hit(self.blocks@, cells_of(probes@), 0) == first_hit(
                    self.blocks@,
                    cells_of(probes@),
                    p as int,
                ),
            decreases probes@.len() - p,
        {
            assert(cells_of(probes@)[p as int] == at(probes@[p as int]));
            match self.block_at(probes[p]) {
                Some(i) => {
                    return Some(i);
                },
                None => {},
            }
            p = p + 1;
        }
        None
    }

    /// Whether a paddle cell is `c`.
    pub(crate) fn paddle_hit(&self, c: Position) -> (r: bool)
        ensures
            r == paddle_covers(self.player@, at(c)),
    {
        let mut i: usize = 0;
        while i < self.player.len()
            invariant
                i <= self.player@.len(),
                forall|k: int| 0 <= k < i ==> at(#[trigger] self.player@[k]) != at(c),
            decreases self.player@.len() - i,
        {
            let p = self.player[i];
            if p.x == c.x && p.y == c.y {
                assert(at(self.player@[i as int]) == at(c));
                return true;
            }
            i = i + 1;
        }
        false
    }
}

impl BreakoutGame {
    /// Resolves the block collisions of the ball aiming at `next_ball_pos`: each hit
    /// block turns the ball, is removed and reported in `events`, and the new course is
    /// tested again until it hits nothing. Returns the cell the ball then aims at.
    fn check_positions(&mut self, next_ball_pos: Position, events: &mut Vec<Event>) -> (r: Position)
        requires
            0 <= old(self).ball.position.x <= 255,
            0 <= old(self).ball.position.y <= 255,
            small(old(self).ball.x_vel as int),
            small(old(self).ball.y_vel as int),
            -1 <= next_ball_pos.x <= 256,
            -1 <= next_ball_pos.y <= 256,
        ensures
            ({
                let r0 = resolve(
                    old(self).ball.position.x as int,
                    old(self).ball.position.y as int,
                    motion_of(old(self).ball, next_ball_pos),
                    old(self).blocks@,
                );
                &&& final(self).ball.x_vel == r0.0.vx
                &&& final(self).ball.y_vel == r0.0.vy
                &&& at(r) == (r0.0.nx, r0.0.ny)
                &&& final(self).blocks@ == r0.1
                &&& final(events)@ == old(events)@ + destroyed_events(r0.2)
            }),
            final(self).ball.position == old(self).ball.position,
            final(self).player@ == old(self).player@,
            final(self).width == old(self).width,
            final(self).height == old(self).height,
            final(self).ball.x_vel == old(self).ball.x_vel || final(self).ball.x_vel == -old(
                self,
            ).ball.x_vel,
            final(self).ball.y_vel == old(self).ball.y_vel || final(self).ball.y_vel == -old(
                self,
            ).ball.y_vel,
            (forall|k: int|
                0 <= k < old(self).blocks@.len() ==> block_wf(
                    #[trigger] old(self).blocks@[k],
                    old(self).width as int,
                    old(self).height as int,
                )) ==> (forall|k: int|
                0 <= k < final(self).blocks@.len() ==> block_wf(
                    #[trigger] final(self).blocks@[k],
                    final(self).width as int,
                    final(self).height as int,
                )),
            disjoint_blocks(old(self).blocks@) ==> disjoint_blocks(final(self).blocks@),
    {
        let ghost x = self.ball.position.x as int;
        let ghost y = self.ball.position.y as int;
        let ghost g0_ball = self.ball;
        let ghost g0_player = self.player@;
        let ghost m0 = motion_of(self.ball, next_ball_pos);
        let ghost b0 = self.blocks@;
        let ghost ev0 = events@;
        let ghost all_wf = forall|k: int|
            0 <= k < b0.len() ==> block_wf(#[trigger] b0[k], self.width as int, self.height as int);
        let ghost all_disjoint = disjoint_blocks(b0);
        let ghost mut destroyed: Seq<Block> = seq![];
        let mut next = next_ball_pos;
        loop
            invariant
                self.ball.position == g0_ball.position,
                x == self.ball.position.x,
                y == self.ball.position.y,
                0 <= x <= 255,
                0 <= y <= 255,
                self.player@ == g0_player,
                self.width == old(self).width,
                self.height == old(self).height,
                small(self.ball.x_vel as int),
                small(self.ball.y_vel as int),
                self.ball.x_vel == g0_ball.x_vel || self.ball.x_vel == -g0_ball.x_vel,
                self.ball.y_vel == g0_ball.y_vel || self.ball.y_vel == -g0_ball.y_vel,
                -1 <= next.x <= 256,
                -1 <= next.y <= 256,
                all_wf ==> forall|k: int|
                    0 <= k < self.blocks@.len() ==> block_wf(
                        #[trigger] self.blocks@[k],
                        self.width as int,
                        self.height as int,
                    ),
                all_disjoint ==> disjoint_blocks(self.blocks@),
                ({
                    let r = resolve(x, y, motion_of(self.ball, next), self.blocks@);
                    resolve(x, y, m0, b0) == (r.0, r.1, destroyed + r.2)
                }),
                events@ == ev0 + destroyed_events(destroyed),
            ensures
                first_hit(self.blocks@, probe_cells(x, y, motion_of(self.ball, next)), 0) is None,
            decreases self.blocks@.len(),
        {
            let probes = self.get_positions_to_check(next);
            match self.hit_index(&probes) {
                None => {
                    break;
                },
                Some(i) => {
                    let ghost m = motion_of(self.ball, next);
                    let ghost bs = self.blocks@;
                    let blk = self.blocks[i];
                    let pos = self.ball.position;
                    if blk.positions[0].x > pos.x || blk.positions[BLOCK_SIZE - 1].x < pos.x {
                        self.ball.x_vel = -self.ball.x_vel;
                        next.x = pos.x + self.ball.x_vel as i16;
                    }
                    if blk.positions[0].y != pos.y {
                        self.ball.y_vel = -self.ball.y_vel;
                        next.y = pos.y + self.ball.y_vel as i16;
                    }
                    assert(motion_of(self.ball, next) == bounce(x, y, m, blk));
                    self.blocks.remove(i);
                    events.push(Event::BlockDestroyed(blk));
                    proof {
                        let r = resolve(x, y, motion_of(self.ball, next), self.blocks@);
                        assert(resolve(x, y, m, bs) == (r.0, r.1, seq![blk] + r.2));
                        assert(destroyed + (seq![blk] + r.2) =~= (destroyed + seq![blk]) + r.2);
                        assert(destroyed_events(destroyed + seq![blk]) =~= destroyed_events(
                            destroyed,
                        ).push(Event::BlockDestroyed(blk)));
                        destroyed = destroyed + seq![blk];
                        if all_disjoint {
                            assert forall|a: int, b: int|
                                0 <= a < self.blocks@.len() && 0 <= b < self.blocks@.len() && a != b
                                    implies !blocks_overlap(
                                #[trigger] self.blocks@[a],
                                #[trigger] self.blocks@[b],
                            ) by {
                                let a0 = if a < i { a } else { a + 1 };
                                let b0 = if b < i { b } else { b + 1 };
                                assert(self.blocks@[a] == bs[a0]);
                                assert(self.blocks@[b] == bs[b0]);
                            }
                        }
                        if all_wf {
                            assert forall|k: int| 0 <= k < self.blocks@.len() implies block_wf(
                                #[trigger] self.blocks@[k],
                                self.width as int,
                                self.height as int,
                            ) by {
                                if k < i {
                                    assert(self.blocks@[k] == bs[k]);
                                } else {
                                    assert(self.blocks@[k] == bs[k + 1]);
                                }
                            }
                        }
                    }
                },
            }
        }
        next
    }
}

impl BreakoutGame {
    /// Moves the ball one tick, as `step_of` describes, and returns what happened:
    /// the destroyed blocks in order, or `GameOver` once the ball has passed the paddle.
    pub fn move_ball(&mut self) -> (events: Vec<Event>)
        requires
            old(self).wf(),
        ensures
            final(self).wf(),
            ({
                let s = step_of(old(self));
                &&& at(final(self).ball.position) == (s.x, s.y)
                &&& final(self).ball.x_vel == s.vx
                &&& final(self).ball.y_vel == s.vy
                &&& final(self).blocks@ == s.blocks
                &&& events@ == events_of(s)
            }),
            final(self).player@ == old(self).player@,
            final(self).width == old(self).width,
            final(self).height == old(self).height,
            is_stationary(final(self).ball) == is_stationary(old(self).ball),
    {
        let mut events: Vec<Event> = Vec::new();
        let pos = self.ball.position;
        if pos.y >= self.height as i16 {
            events.push(Event::GameOver);
            assert(events@ =~= seq![Event::GameOver]);
            return events;
        }
        let mut next_ball_pos = Position {
            x: pos.x + self.ball.x_vel as i16,
            y: pos.y + self.ball.y_vel as i16,
        };
        if next_ball_pos.x < 0 || next_ball_pos.x >= self.width as i16 {
            self.ball.x_vel = -self.ball.x_vel;
            next_ball_pos.x = pos.x + self.ball.x_vel as i16;
        }
        if next_ball_pos.y < 0 || self.paddle_hit(next_ball_pos) {
            self.ball.y_vel = -self.ball.y_vel;
            next_ball_pos.y = pos.y + self.ball.y_vel as i16;
        }
        if next_ball_pos.y >= self.height as i16 {
            self.ball.position = next_ball_pos;
            events.push(Event::GameOver);
            assert(events@ =~= seq![Event::GameOver]);
            return events;
        }
        let next = self.check_positions(next_ball_pos, &mut events);
        assert(events@ =~= destroyed_events(step_of(old(self)).destroyed));
        let x = if 0 <= next.x && next.x < self.width as i16 { next.x } else { pos.x };
        let y = if 0 <= next.y && next.y < self.height as i16 { next.y } else { pos.y };
        self.ball.position = Position { x, y };
        events
    }

    /// One tick of the game: moves the ball, see `move_ball`.
    pub fn tick(&mut self) -> (events: Vec<Event>)
        requires
            old(self).wf(),
        ensures
            final(self).wf(),
            ({
                let s = step_of(old(self));
                &&& at(final(self).ball.position) == (s.x, s.y)
                &&& final(self).ball.x_vel == s.vx
                &&& final(self).ball.y_vel == s.vy
                &&& final(self).blocks@ == s.blocks
                &&& events@ == events_of(s)
            }),
            final(self).player@ == old(self).player@,
            final(self).width == old(self).width,
            final(self).height == old(self).height,
            is_stationary(final(self).ball) == is_stationary(old(self).ball),
    {
        self.move_ball()
    }
}

/// A ball in the last row moving down ends the game in that tick: it leaves the field
/// below the paddle row, and no block is tested or destroyed.
pub proof fn game_over_law(g: &BreakoutGame)
    requires
        g.wf(),
        g.ball.position.y == g.height - 1,
        g.ball.y_vel == 1,
    ensures
        step_of(g).over,
        step_of(g).y == g.height,
        step_of(g).blocks == g.blocks@,
        step_of(g).destroyed == Seq::<Block>::empty(),
        events_of(step_of(g)) == seq![Event::GameOver],
{
    let w = g.width as int;
    let x = g.ball.position.x as int;
    let nx = wall_x(x, g.ball.x_vel as int, w).1;
    assert(!paddle_covers(g.player@, (nx, g.height as int))) by {
        if paddle_covers(g.player@, (nx, g.height as int)) {
            let i = choose|i: int| 0 <= i < g.player@.len() && at(#[trigger] g.player@[i]) == (nx, g.height as int);
            assert(g.player@[i].y == g.height - 1);
        }
    }
}

/// The first block covering `c` at or after `from` is block `i` when no other block
/// covers `c`.
proof fn lemma_only_block_at(blocks: Seq<Block>, c: (int, int), from: int, i: int)
    requires
        0 <= from <= i < blocks.len(),
        block_covers(blocks[i], c),
        forall|j: int| 0 <= j < blocks.len() && j != i ==> !block_covers(#[trigger] blocks[j], c),
    ensures
        first_block_at(blocks, c, from) == Some(i),
    decreases i - from,
{
    if from < i {
        lemma_only_block_at(blocks, c, from + 1, i);
    }
}

/// A ball at the left wall moving left turns right and moves into column 1, unless a
/// block turns it again in the same tick.
pub proof fn wall_reflection_law(g: &BreakoutGame)
    requires
        g.wf(),
        !is_over(g.ball, g.height as int),
        g.ball.position.x == 0,
        g.ball.x_vel == -1,
        step_of(g).destroyed.len() == 0,
    ensures
        step_of(g).vx == 1,
        step_of(g).x == 1,
{
    let x = g.ball.position.x as int;
    let y = g.ball.position.y as int;
    let (vx1, nx1) = wall_x(x, g.ball.x_vel as int, g.width as int);
    let (vy1, ny1) = wall_y(y, g.ball.y_vel as int, nx1, g.player@);
    if ny1 < g.height {
        let m = Motion { vx: vx1, vy: vy1, nx: nx1, ny: ny1 };
        let r = resolve(x, y, m, g.blocks@);
        assert(r.0 == m);
    }
}

/// A ball moving straight up into a block destroys that block first; when no other
/// block is hit in the same tick, the ball turns down and the block is removed.
pub proof fn block_from_below_law(g: &BreakoutGame, i: int)
    requires
        g.wf(),
        !is_over(g.ball, g.height as int),
        g.ball.x_vel == 0,
        g.ball.y_vel == -1,
        0 <= i < g.blocks@.len(),
        block_covers(g.blocks@[i], (g.ball.position.x as int, g.ball.position.y - 1)),
    ensures
        step_of(g).destroyed.len() >= 1,
        step_of(g).destroyed[0] == g.blocks@[i],
        events_of(step_of(g))[0] == Event::BlockDestroyed(g.blocks@[i]),
        step_of(g).destroyed.len() == 1 ==> step_of(g).vy == 1 && step_of(g).vx == 0
            && step_of(g).blocks == g.blocks@.remove(i),
{
    let x = g.ball.position.x as int;
    let y = g.ball.position.y as int;
    let c = (x, y - 1);
    let bs = g.blocks@;
    assert forall|j: int| 0 <= j < bs.len() && j != i implies !block_covers(#[trigger] bs[j], c) by {
        if block_covers(bs[j], c) {
            assert(blocks_overlap(bs[i], bs[j]));
        }
    }
    lemma_only_block_at(bs, c, 0, i);
    assert(!paddle_covers(g.player@, c)) by {
        if paddle_covers(g.player@, c) {
            let k = choose|k: int| 0 <= k < g.player@.len() && at(#[trigger] g.player@[k]) == c;
            assert(g.player@[k].y == g.height - 1);
        }
    }
    let m = Motion { vx: 0, vy: -1, nx: x, ny: y - 1 };
    assert(probe_cells(x, y, m) =~= seq![c, c]);
    assert(first_hit(bs, probe_cells(x, y, m), 0) == Some(i));
    let b = bounce(x, y, m, bs[i]);
    assert(b == Motion { vx: 0, vy: 1, nx: x, ny: y + 1 });
    let r = resolve(x, y, b, bs.remove(i));
    assert(resolve(x, y, m, bs) == (r.0, r.1, seq![bs[i]] + r.2));
    assert(destroyed_events(step_of(g).destroyed)[0] == Event::BlockDestroyed(bs[i]));
    if r.2.len() == 0 {
        assert(r.0 == b && r.1 == bs.remove(i));
    }
}

} // verus!
