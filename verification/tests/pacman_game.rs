use tg_rcore::pacman::{key_command, Direction, Game, KeyCommand, Phase, Point, TILE_DOT, TILE_EMPTY, TILE_WALL};

#[test]
fn new_game_has_three_lives_and_dots() {
    let g = Game::new(42);
    assert_eq!(g.lives, 3);
    assert_eq!(g.score, 0);
    assert_eq!(g.phase, Phase::Running);
    assert_eq!(g.tiles.len(), 441);
    let dots = g.tiles.iter().filter(|&&t| t == TILE_DOT).count();
    assert_eq!(g.remaining_dots, dots);
    assert!(dots > 0);
    assert_eq!(g.tiles[0], TILE_WALL);
    assert_eq!(g.tile_at(g.pacman), TILE_EMPTY);
    assert_eq!(g.ghosts.len(), 2);
}

#[test]
fn walls_block_moves() {
    let g = Game::new(1);
    assert_eq!(g.next_point(Point { x: 1, y: 1 }, Direction::Up), None);
    assert_eq!(g.manhattan(Point { x: 1, y: 1 }, Point { x: 4, y: 3 }), 5);
    assert_eq!(Direction::Up.opposite(), Direction::Down);
    assert_eq!(Direction::Left.opposite(), Direction::Right);
}

#[test]
fn pause_toggles_and_delays() {
    let mut g = Game::new(3);
    assert_eq!(g.frame_delay(), 120);
    g.toggle_pause();
    assert_eq!(g.phase, Phase::Paused);
    assert_eq!(g.frame_delay(), 60);
    let before = g.pacman;
    g.tick();
    assert_eq!(g.pacman, before);
    g.toggle_pause();
    assert_eq!(g.phase, Phase::Running);
}

#[test]
fn restart_only_after_the_end() {
    let mut g = Game::new(3);
    g.score = 10;
    g.restart_if_possible(5);
    assert_eq!(g.score, 10);
    g.phase = Phase::GameOver;
    g.restart_if_possible(5);
    assert_eq!(g.score, 0);
    assert_eq!(g.phase, Phase::Running);
    assert_eq!(g.lives, 3);
}

#[test]
fn pipe_bytes_steer() {
    let mut g = Game::new(3);
    assert!(!g.handle_pipe_byte(b'w'));
    assert_eq!(g.wanted_dir, Direction::Up);
    assert!(!g.handle_pipe_byte(b'z'));
    assert_eq!(g.wanted_dir, Direction::Up);
    assert!(g.handle_pipe_byte(b'q'));
}

#[test]
fn keys_map_to_commands() {
    assert_eq!(key_command(b'W'), KeyCommand::Send(b'w'));
    assert_eq!(key_command(b'd'), KeyCommand::Send(b'd'));
    assert_eq!(key_command(b'p'), KeyCommand::Pause);
    assert_eq!(key_command(b'R'), KeyCommand::Restart);
    assert_eq!(key_command(b'q'), KeyCommand::Quit);
    assert_eq!(key_command(b'x'), KeyCommand::Ignore);
}

#[test]
fn ticks_keep_the_game_consistent() {
    let mut g = Game::new(11);
    for _ in 0..500 {
        g.tick();
        let dots = g.tiles.iter().filter(|&&t| t == TILE_DOT).count();
        assert_eq!(g.remaining_dots, dots);
        assert!(g.lives <= 3);
        assert_ne!(g.tile_at(g.pacman), TILE_WALL);
    }
}

#[test]
fn points_and_steps() {
    assert_eq!(Point::new(3, 4), Point { x: 3, y: 4 });
    assert_eq!(Point::new(258, 1), Point { x: 2, y: 1 });
    assert_eq!(Direction::Up.delta(), (0, -1));
    assert_eq!(Direction::Left.delta(), (-1, 0));
    assert_eq!(Direction::Down.delta(), (0, 1));
    assert_eq!(Direction::Right.delta(), (1, 0));
}
