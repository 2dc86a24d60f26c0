use tg_rcore::gfx::Rect;
use tg_rcore::pong;
use tg_rcore::snake::{
    board_origin, draw_cell, poll_result, render as snake_render, scan_key, update_dir, Direction,
    InputAction, Point, SnakeGame, BOARD_CAPACITY, COLOR_HEAD,
};

fn lcg(seed: u32) -> u32 {
    seed.wrapping_mul(1_664_525).wrapping_add(1_013_904_223)
}

#[test]
fn snake_starts_in_the_middle_heading_right() {
    let g = SnakeGame::new(1);
    assert_eq!(g.len, 3);
    assert_eq!(g.dir, Direction::Right);
    assert!(g.alive);
    assert_eq!(g.score, 0);
    assert_eq!(g.body.len(), BOARD_CAPACITY);
    assert_eq!(&g.body[..3], &[Point { x: 10, y: 10 }, Point { x: 9, y: 10 }, Point { x: 8, y: 10 }]);
    let seed = lcg(1u32.wrapping_add(0x9e37_79b9));
    let idx = (seed % 400) as usize;
    let expected = Point { x: (idx % 20) as u8, y: (idx / 20) as u8 };
    if !g.body[..3].contains(&expected) {
        assert_eq!(g.food, expected);
    }
    assert!(!g.body[..3].contains(&g.food));
}

#[test]
fn snake_new_with_a_seed_that_wraps_to_zero() {
    let g = SnakeGame::new(0x61C8_8647);
    assert_eq!(g.seed, 1_013_904_223);
    assert_eq!(g.food, Point { x: 3, y: 11 });
    assert!(g.alive);
    assert_eq!(g.len, 3);
    assert!(g.body[3..].iter().all(|p| *p == Point { x: 0, y: 0 }));
}

#[test]
fn snake_dies_at_the_wall() {
    let mut g = SnakeGame::new(3);
    g.food = Point { x: 0, y: 0 };
    for _ in 0..9 {
        g.advance();
        assert!(g.alive);
    }
    assert_eq!(g.body[0], Point { x: 19, y: 10 });
    assert_eq!(g.body[2], Point { x: 17, y: 10 });
    g.advance();
    assert!(!g.alive);
    assert_eq!(g.body[0], Point { x: 19, y: 10 });
    g.advance();
    assert_eq!(g.body[0], Point { x: 19, y: 10 });
}

#[test]
fn snake_grows_when_eating() {
    let mut g = SnakeGame::new(5);
    g.food = Point { x: 11, y: 10 };
    g.advance();
    assert_eq!(g.len, 4);
    assert_eq!(g.score, 1);
    assert_eq!(&g.body[..4], &[
        Point { x: 11, y: 10 },
        Point { x: 10, y: 10 },
        Point { x: 9, y: 10 },
        Point { x: 8, y: 10 },
    ]);
    assert!(!g.body[..4].contains(&g.food));
}

#[test]
fn snake_cannot_reverse() {
    let mut slot: Option<Direction> = None;
    update_dir(&mut slot, Direction::Right, Direction::Left);
    assert_eq!(slot, None);
    update_dir(&mut slot, Direction::Right, Direction::Up);
    assert_eq!(slot, Some(Direction::Up));
    update_dir(&mut slot, Direction::Right, Direction::Down);
    assert_eq!(slot, Some(Direction::Up));
    assert!(Direction::Up.is_opposite(Direction::Down));
    assert!(!Direction::Up.is_opposite(Direction::Left));
}

#[test]
fn snake_keys() {
    let mut slot: Option<Direction> = None;
    assert!(scan_key(&mut slot, Direction::Right, true, b'w').is_none());
    assert_eq!(slot, Some(Direction::Up));
    assert!(matches!(scan_key(&mut slot, Direction::Right, true, b'Q'), Some(InputAction::Quit)));
    assert!(scan_key(&mut slot, Direction::Right, true, b'r').is_none());
    assert!(matches!(scan_key(&mut slot, Direction::Right, false, b'r'), Some(InputAction::Restart)));
    assert!(scan_key(&mut slot, Direction::Right, true, b'x').is_none());
    assert!(matches!(poll_result(slot), InputAction::Turn(Direction::Up)));
    assert!(matches!(poll_result(None), InputAction::Nothing));
}

#[test]
fn snake_drawing() {
    assert_eq!(board_origin(640, 480), (220, 140));
    assert_eq!(board_origin(100, 100), (0, 0));
    assert_eq!(
        draw_cell(Point { x: 2, y: 3 }, 100, 50, 7),
        Rect { x: 120, y: 80, w: 10, h: 10, color: 7 }
    );
    let g = SnakeGame::new(9);
    let rects = snake_render(&g, 640, 480, 220, 140);
    assert_eq!(rects.len(), 6 + 3 + 1);
    assert_eq!(rects[0], Rect { x: 0, y: 0, w: 640, h: 480, color: 0xff00_0000 });
    assert_eq!(rects[6], Rect { x: 320, y: 240, w: 10, h: 10, color: COLOR_HEAD });
}

#[test]
fn pong_keys_move_paddles_and_quit() {
    let mut g = pong::Game::new(640, 480);
    assert!(!g.finished);
    assert_eq!(g.left_score, 0);
    let y = g.left_y;
    assert!(!pong::handle_key(&mut g, b'w'));
    assert_eq!(g.left_y, (y - 6).max(44));
    assert!(!pong::handle_key(&mut g, b'x'));
    assert!(pong::handle_key(&mut g, b'q'));
    assert!(pong::is_quit_key(b'Q'));
    assert!(!pong::is_quit_key(b'w'));
}

#[test]
fn pong_ball_moves_each_tick() {
    let mut g = pong::Game::new(640, 480);
    let (x, y) = (g.ball_x, g.ball_y);
    g.tick();
    assert_eq!(g.ball_x, x + g.ball_vx);
    assert_eq!(g.ball_y, y + g.ball_vy);
}

#[test]
fn pong_match_ends_at_seven() {
    let mut g = pong::Game::new(640, 480);
    let mut ticks = 0;
    while !g.finished && ticks < 100_000 {
        g.tick();
        ticks += 1;
    }
    assert!(g.finished);
    assert!(g.left_score == 7 || g.right_score == 7);
    let before = (g.ball_x, g.ball_y);
    g.tick();
    assert_eq!((g.ball_x, g.ball_y), before);
    pong::handle_key(&mut g, b'r');
    assert!(!g.finished);
    assert_eq!((g.left_score, g.right_score), (0, 0));
}

#[test]
fn pong_digits() {
    assert_eq!(pong::draw_digit(0, 0, 8).len(), 7);
    assert_eq!(pong::draw_digit(0, 0, 1).len(), 2);
    assert_eq!(pong::draw_digit(0, 0, 0).len(), 6);
    let g = pong::Game::new(640, 480);
    assert!(!pong::render(&g).is_empty());
    assert!(!pong::draw_startup_pattern(640, 480).is_empty());
}
