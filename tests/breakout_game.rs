use breakout::{App, Ball, Block, BreakoutGame, Cell, Color, Direction, Event, GameError, Position};

fn pos(x: i16, y: i16) -> Position {
    Position { x, y }
}

fn block(x: i16, y: i16, color: Color) -> Block {
    Block { positions: [pos(x, y), pos(x + 1, y)], color }
}

fn game(width: u8, height: u8) -> BreakoutGame {
    BreakoutGame::new(width, height).unwrap()
}

#[test]
fn test() {
    let mut game = BreakoutGame::new(20, 10).unwrap();

    game.move_paddle(Direction::Left);
    println!("{:?}", game.player);
    println!("{:?}", game.ball);
    println!("{:?}", game.blocks);

    for _ in 0..20 {
        game.move_ball();
        println!("{:?}", game.ball);
        println!("{:?}", game.blocks);
    }
}

#[test]
fn construction_layout() {
    let g = game(20, 10);
    assert_eq!(g.width, 20);
    assert_eq!(g.height, 10);
    assert_eq!(g.player.len(), 5);
    let xs: Vec<i16> = g.player.iter().map(|p| p.x).collect();
    assert_eq!(xs, vec![8, 9, 10, 11, 12]);
    assert!(g.player.iter().all(|p| p.y == 9));
    assert_eq!(g.ball, Ball { position: pos(10, 8), x_vel: 0, y_vel: 0 });
    assert_eq!(g.blocks.len(), 5 * 10);
    assert_eq!(g.blocks[0], block(0, 0, Color::Red));
    assert_eq!(g.blocks[1], block(2, 0, Color::Green));
    assert_eq!(g.blocks[2], block(4, 0, Color::Blue));
    assert_eq!(g.blocks[3], block(6, 0, Color::Yellow));
    assert_eq!(g.blocks[4], block(8, 0, Color::Red));
    assert_eq!(g.blocks[10], block(0, 1, Color::Blue));
    assert_eq!(g.blocks[49], block(18, 4, Color::Green));
}

#[test]
fn construction_counts_odd_sizes() {
    let g = game(11, 7);
    assert_eq!(g.blocks.len(), 3 * 5);
    assert_eq!(g.ball.position, pos(5, 5));
    let xs: Vec<i16> = g.player.iter().map(|p| p.x).collect();
    assert_eq!(xs, vec![3, 4, 5, 6, 7]);
}

#[test]
fn construction_smallest_field() {
    let g = game(10, 4);
    assert_eq!(g.blocks.len(), 2 * 5);
    assert_eq!(g.ball.position, pos(5, 2));
}

#[test]
fn construction_rejects_small_fields() {
    assert_eq!(BreakoutGame::new(9, 10).err(), Some(GameError::InvalidDimensions));
    assert_eq!(BreakoutGame::new(10, 3).err(), Some(GameError::InvalidDimensions));
    assert_eq!(BreakoutGame::new(0, 0).err(), Some(GameError::InvalidDimensions));
}

#[test]
fn paddle_stays_in_field() {
    let mut g = game(20, 10);
    for _ in 0..30 {
        g.move_paddle(Direction::Left);
        assert_eq!(g.player.len(), 5);
    }
    let xs: Vec<i16> = g.player.iter().map(|p| p.x).collect();
    assert_eq!(xs, vec![0, 1, 2, 3, 4]);
    for _ in 0..30 {
        g.move_paddle(Direction::Right);
        assert_eq!(g.player.len(), 5);
    }
    let xs: Vec<i16> = g.player.iter().map(|p| p.x).collect();
    assert_eq!(xs, vec![15, 16, 17, 18, 19]);
    assert!(g.player.iter().all(|p| p.y == 9));
}

#[test]
fn ball_rests_until_served() {
    let mut g = game(20, 10);
    for _ in 0..3 {
        assert!(g.tick().is_empty());
        assert_eq!(g.ball, Ball { position: pos(10, 8), x_vel: 0, y_vel: 0 });
    }
    g.move_paddle(Direction::Right);
    assert_eq!((g.ball.x_vel, g.ball.y_vel), (1, -1));
    g.move_paddle(Direction::Left);
    assert_eq!((g.ball.x_vel, g.ball.y_vel), (1, -1));
    for _ in 0..40 {
        g.tick();
        assert!(g.ball.x_vel != 0 || g.ball.y_vel != 0);
    }
}

#[test]
fn serve_left() {
    let mut g = game(20, 10);
    g.move_paddle(Direction::Left);
    assert_eq!((g.ball.x_vel, g.ball.y_vel), (-1, -1));
    g.tick();
    assert_eq!(g.ball.position, pos(9, 7));
}

#[test]
fn wall_reflection() {
    let mut g = game(20, 10);
    g.ball = Ball { position: pos(0, 7), x_vel: -1, y_vel: -1 };
    let events = g.tick();
    assert!(events.is_empty());
    assert_eq!(g.ball.x_vel, 1);
    assert_eq!(g.ball.position, pos(1, 6));
}

#[test]
fn right_wall_reflection() {
    let mut g = game(20, 10);
    g.ball = Ball { position: pos(19, 7), x_vel: 1, y_vel: 1 };
    g.tick();
    assert_eq!(g.ball, Ball { position: pos(18, 8), x_vel: -1, y_vel: 1 });
}

#[test]
fn ceiling_reflection() {
    let mut g = game(20, 10);
    g.blocks.clear();
    g.ball = Ball { position: pos(5, 0), x_vel: 1, y_vel: -1 };
    g.tick();
    assert_eq!(g.ball, Ball { position: pos(6, 1), x_vel: 1, y_vel: 1 });
}

#[test]
fn paddle_reflection() {
    let mut g = game(20, 10);
    g.ball = Ball { position: pos(9, 8), x_vel: 1, y_vel: 1 };
    let events = g.tick();
    assert!(events.is_empty());
    assert_eq!(g.ball, Ball { position: pos(10, 7), x_vel: 1, y_vel: -1 });
}

#[test]
fn block_destroyed_from_below() {
    let mut g = game(20, 10);
    g.ball = Ball { position: pos(2, 5), x_vel: 0, y_vel: -1 };
    let target = g.blocks[41];
    assert_eq!(target, block(2, 4, Color::Green));
    let events = g.tick();
    assert_eq!(events, vec![Event::BlockDestroyed(target)]);
    assert_eq!(g.ball, Ball { position: pos(2, 6), x_vel: 0, y_vel: 1 });
    assert_eq!(g.blocks.len(), 49);
    assert!(!g.blocks.contains(&target));
}

#[test]
fn side_hit_reverses_horizontally() {
    let mut g = game(20, 20);
    let a = block(6, 7, Color::Blue);
    g.blocks = vec![a];
    g.ball = Ball { position: pos(5, 7), x_vel: 1, y_vel: 1 };
    let events = g.tick();
    assert_eq!(events, vec![Event::BlockDestroyed(a)]);
    assert_eq!(g.ball, Ball { position: pos(4, 8), x_vel: -1, y_vel: 1 });
}

#[test]
fn chained_destruction() {
    let mut g = game(20, 20);
    let a = block(4, 6, Color::Red);
    let b = block(6, 8, Color::Yellow);
    g.blocks = vec![a, b];
    g.ball = Ball { position: pos(5, 7), x_vel: 1, y_vel: -1 };
    let events = g.tick();
    assert_eq!(events, vec![Event::BlockDestroyed(a), Event::BlockDestroyed(b)]);
    assert!(g.blocks.is_empty());
    assert_eq!(g.ball, Ball { position: pos(4, 6), x_vel: -1, y_vel: -1 });
}

#[test]
fn horizontal_cell_is_tested_first() {
    let mut g = game(20, 20);
    let a = block(5, 6, Color::Red);
    let b = block(6, 7, Color::Green);
    g.blocks = vec![a, b];
    g.ball = Ball { position: pos(5, 7), x_vel: 1, y_vel: -1 };
    let events = g.tick();
    assert_eq!(events, vec![Event::BlockDestroyed(b), Event::BlockDestroyed(a)]);
    assert!(g.blocks.is_empty());
    assert_eq!(g.ball, Ball { position: pos(4, 8), x_vel: -1, y_vel: 1 });
}

#[test]
fn game_over() {
    let mut g = game(20, 10);
    g.ball = Ball { position: pos(0, 9), x_vel: 1, y_vel: 1 };
    let events = g.tick();
    assert_eq!(events, vec![Event::GameOver]);
    assert_eq!(g.ball.position, pos(1, 10));
    assert_eq!(g.blocks.len(), 50);
    let again = g.tick();
    assert_eq!(again, vec![Event::GameOver]);
    assert_eq!(g.ball.position, pos(1, 10));
}

#[test]
fn snapshot_twice_is_equal() {
    let mut g = game(20, 10);
    g.move_paddle(Direction::Right);
    g.tick();
    let s1 = g.snapshot();
    let s2 = g.snapshot();
    assert_eq!(s1, s2);
    assert_eq!(s1.ball, g.ball.position);
    assert_eq!(s1.paddle, g.player.iter().copied().collect::<Vec<_>>());
    assert_eq!(s1.blocks, g.blocks);
}

#[test]
fn all_cells_row_major() {
    let g = game(20, 10);
    let cells = g.pos_iter();
    assert_eq!(cells.len(), 200);
    assert_eq!(cells[0], pos(0, 0));
    assert_eq!(cells[21], pos(1, 1));
    assert_eq!(cells[199], pos(19, 9));
}

#[test]
fn cells_and_glyphs() {
    let g = game(20, 10);
    assert_eq!(g.cell_at(pos(10, 8)), Cell::Ball);
    assert_eq!(g.cell_at(pos(1, 0)), Cell::Block(Color::Red));
    assert_eq!(g.cell_at(pos(2, 1)), Cell::Block(Color::Yellow));
    assert_eq!(g.cell_at(pos(8, 9)), Cell::Paddle);
    assert_eq!(g.cell_at(pos(0, 9)), Cell::Empty);
    assert_eq!(Cell::Ball.glyph(), Some('\u{26AB}'));
    assert_eq!(Cell::Paddle.glyph(), Some('\u{2B1B}'));
    assert_eq!(Cell::Block(Color::Blue).glyph(), Some('\u{1F7E6}'));
    assert_eq!(Cell::Empty.glyph(), None);
    assert_eq!(Color::Red.to_string(), '\u{1F7E5}');
    assert_eq!(Color::Green.to_string(), '\u{1F7E9}');
    assert_eq!(Color::Yellow.to_string(), '\u{1F7E8}');
}

#[test]
fn app_props_defaults() {
    assert_eq!(App::from_props(None, None), App { width: 20, height: 10 });
    assert_eq!(App::from_props(Some(30), None), App { width: 30, height: 10 });
    assert_eq!(App::from_props(Some(12), Some(8)), App { width: 12, height: 8 });
}
