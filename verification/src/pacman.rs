//! The pac-man game of the signals demo: a 21 by 21 maze of walls and
//! dots, pac-man steered by the player, a ghost that hunts and a ghost
//! that wanders, lives, pause and the end of a game, and the rectangles a
//! frame is drawn with.
use vstd::prelude::*;
use crate::gfx::{rect, Rect};

verus! {

pub const MAP_W: usize = 21;
pub const MAP_H: usize = 21;
pub const MAP_CELLS: usize = 441;
pub const GHOST_COUNT: usize = 2;
pub const HUD_HEIGHT: usize = 28;
pub const BOARD_MARGIN: usize = 12;
/// Milliseconds between ticks while the game runs.
pub const TICK_MS: usize = 120;
/// Ticks before play resumes after a life is lost.
pub const RESPAWN_TICKS: u8 = 6;
/// The largest screen side handled.
pub const MAX_SIDE: usize = 0x100_0000;

pub const TILE_WALL: u8 = 0;
pub const TILE_DOT: u8 = 1;
pub const TILE_EMPTY: u8 = 2;

pub const COLOR_BG: u32 = 0xff04_0814;
pub const COLOR_HUD: u32 = 0xff10_1c30;
pub const COLOR_BOARD: u32 = 0xff08_101f;
pub const COLOR_BORDER: u32 = 0xff3d_6bff;
pub const COLOR_WALL: u32 = 0xff1e_52ff;
pub const COLOR_DOT: u32 = 0xffff_f099;
pub const COLOR_PACMAN: u32 = 0xffff_d600;
pub const COLOR_GHOST_0: u32 = 0xffff_4d6d;
pub const COLOR_GHOST_1: u32 = 0xff4d_e0ff;
pub const COLOR_EYE: u32 = 0xffff_ffff;
pub const COLOR_PAUSED: u32 = 0xffe9_e3d5;
pub const COLOR_LIFE_LOST: u32 = 0xffff_9f1c;
pub const COLOR_VICTORY: u32 = 0xff2e_cc71;
pub const COLOR_GAME_OVER: u32 = 0xffe6_3946;

/// A cell of the maze.
#[derive(Clone, Copy, PartialEq, Eq, Structural, Debug)]
pub struct Point {
    pub x: u8,
    pub y: u8,
}

/// A way to move.
#[derive(Clone, Copy, PartialEq, Eq, Structural, Debug)]
pub enum Direction {
    Up,
    Left,
    Down,
    Right,
}

/// The way back.
pub open spec fn reverse(d: Direction) -> Direction {
    match d {
        Direction::Up => Direction::Down,
        Direction::Left => Direction::Right,
        Direction::Down => Direction::Up,
        Direction::Right => Direction::Left,
    }
}

impl Point {
    /// The cell at column `x`, row `y` (each kept to its low eight bits).
    pub fn new(x: usize, y: usize) -> (r: Point)
        ensures
            r.x == x as u8,
            r.y == y as u8,
    {
        Point { x: x as u8, y: y as u8 }
    }
}

/// The step a move makes, as column and row change.
pub open spec fn step_of(d: Direction) -> (isize, isize) {
    match d {
        Direction::Up => (0isize, -1isize),
        Direction::Left => (-1isize, 0isize),
        Direction::Down => (0isize, 1isize),
        Direction::Right => (1isize, 0isize),
    }
}

impl Direction {
    /// The column and row change of one move this way.
    pub fn delta(self) -> (r: (isize, isize))
        ensures
            r == step_of(self),
    {
        match self {
            Direction::Up => (0, -1),
            Direction::Left => (-1, 0),
            Direction::Down => (0, 1),
            Direction::Right => (1, 0),
        }
    }

    /// The way back.
    pub fn opposite(self) -> (r: Direction)
        ensures
            r == reverse(self),
    {
        match self {
            Direction::Up => Direction::Down,
            Direction::Left => Direction::Right,
            Direction::Down => Direction::Up,
            Direction::Right => Direction::Left,
        }
    }
}

/// What the game is doing.
#[derive(Clone, Copy, PartialEq, Eq, Structural, Debug)]
pub enum Phase {
    Running,
    Paused,
    LifeLost,
    Victory,
    GameOver,
}

/// How a ghost picks its way.
#[derive(Clone, Copy, PartialEq, Eq, Structural, Debug)]
pub enum GhostKind {
    /// Towards pac-man.
    Hunter,
    /// At random.
    Wanderer,
}

/// A ghost.
#[derive(Clone, Copy, PartialEq, Eq, Structural, Debug)]
pub struct GhostState {
    pub pos: Point,
    pub dir: Direction,
    pub kind: GhostKind,
}

/// Where pac-man starts.
pub open spec fn pacman_start() -> Point {
    Point { x: 2, y: 2 }
}

/// The ghosts as a round starts: the hunter heading left, the wanderer right.
pub open spec fn start_ghosts() -> Seq<GhostState> {
    seq![
        GhostState { pos: Point { x: 9, y: 10 }, dir: Direction::Left, kind: GhostKind::Hunter },
        GhostState { pos: Point { x: 11, y: 10 }, dir: Direction::Right, kind: GhostKind::Wanderer },
    ]
}

/// The index of a cell, row by row.
pub open spec fn index_of(p: Point) -> int {
    p.y * MAP_W + p.x
}

/// The cell lies in the maze.
pub open spec fn in_map(p: Point) -> bool {
    p.x < MAP_W && p.y < MAP_H
}

/// The cell at index `i`.
pub open spec fn point_of(i: int) -> Point {
    Point { x: (i % 21) as u8, y: (i / 21) as u8 }
}

/// The blocks of wall inside the maze: left, top, width, height.
pub open spec fn wall_blocks() -> Seq<(int, int, int, int)> {
    seq![
        (3, 3, 3, 3),
        (8, 3, 5, 2),
        (15, 3, 3, 3),
        (5, 8, 2, 5),
        (9, 8, 3, 2),
        (14, 8, 2, 5),
        (3, 15, 3, 3),
        (8, 16, 5, 2),
        (15, 15, 3, 3),
    ]
}

/// Cell `(x, y)` is wall in a fresh maze: the border and the blocks.
pub open spec fn is_wall_cell(x: int, y: int) -> bool {
    ||| x == 0 || y == 0 || x == MAP_W - 1 || y == MAP_H - 1
    ||| exists|k: int| 0 <= k < 9 && {
        let b = #[trigger] wall_blocks()[k];
        b.0 <= x < b.0 + b.2 && b.1 <= y < b.1 + b.3
    }
}

/// Cell `(x, y)` starts empty: pac-man's and the ghosts' starting cells.
pub open spec fn is_start_cell(x: int, y: int) -> bool {
    (x == 2 && y == 2) || (x == 9 && y == 10) || (x == 11 && y == 10)
}

/// The tile of cell `(x, y)` in a fresh maze.
pub open spec fn fresh_tile(x: int, y: int) -> u8 {
    if is_start_cell(x, y) {
        TILE_EMPTY
    } else if is_wall_cell(x, y) {
        TILE_WALL
    } else {
        TILE_DOT
    }
}

/// Number of dots among the tiles.
pub open spec fn count_dots(tiles: Seq<u8>) -> nat
    decreases tiles.len(),
{
    if tiles.len() == 0 {
        0
    } else {
        count_dots(tiles.drop_last()) + if tiles.last() == TILE_DOT {
            1nat
        } else {
            0nat
        }
    }
}

proof fn lemma_count_dots_update(tiles: Seq<u8>, i: int, t: u8)
    requires
        0 <= i < tiles.len(),
    ensures
        count_dots(tiles.update(i, t)) + (if tiles[i] == TILE_DOT { 1int } else { 0int }) == count_dots(tiles) + (
        if t == TILE_DOT {
            1int
        } else {
            0int
        }),
    decreases tiles.len(),
{
    let u = tiles.update(i, t);
    if i == tiles.len() - 1 {
        assert(u.drop_last() =~= tiles.drop_last());
    } else {
        assert(u.drop_last() =~= tiles.drop_last().update(i, t));
        lemma_count_dots_update(tiles.drop_last(), i, t);
    }
}

proof fn lemma_count_dots_le(tiles: Seq<u8>)
    ensures
        count_dots(tiles) <= tiles.len(),
    decreases tiles.len(),
{
    if tiles.len() > 0 {
        lemma_count_dots_le(tiles.drop_last());
    }
}

/// The whole state of a game, as values.
pub struct PacView {
    pub tiles: Seq<u8>,
    pub pacman: Point,
    pub current_dir: Direction,
    pub wanted_dir: Direction,
    pub ghosts: Seq<GhostState>,
    pub remaining_dots: usize,
    pub score: usize,
    pub lives: u8,
    pub phase: Phase,
    pub respawn_ticks: u8,
    pub seed: u32,
}

/// The tile at a cell.
pub open spec fn tile_of(v: PacView, p: Point) -> u8 {
    v.tiles[index_of(p)]
}

/// The cell one step from `p` towards `dir`, unless it is wall (or off the
/// top or left edge).
pub open spec fn next_cell(v: PacView, p: Point, dir: Direction) -> Option<Point> {
    let (nx, ny) = match dir {
        Direction::Up => (p.x as int, p.y - 1),
        Direction::Left => (p.x - 1, p.y as int),
        Direction::Down => (p.x as int, p.y + 1),
        Direction::Right => (p.x + 1, p.y as int),
    };
    if nx < 0 || ny < 0 {
        None
    } else {
        let n = Point { x: nx as u8, y: ny as u8 };
        if tile_of(v, n) != TILE_WALL {
            Some(n)
        } else {
            None
        }
    }
}

/// The ways open from `p`, in the order up, left, down, right.
pub open spec fn open_dirs(v: PacView, p: Point) -> Seq<Direction> {
    (if next_cell(v, p, Direction::Up) is Some { seq![Direction::Up] } else { seq![] }) + (if next_cell(
        v,
        p,
        Direction::Left,
    ) is Some {
        seq![Direction::Left]
    } else {
        seq![]
    }) + (if next_cell(v, p, Direction::Down) is Some { seq![Direction::Down] } else { seq![] }) + (
    if next_cell(v, p, Direction::Right) is Some {
        seq![Direction::Right]
    } else {
        seq![]
    })
}

/// `s` without `d`.
pub open spec fn without(s: Seq<Direction>, d: Direction) -> Seq<Direction>
    decreases s.len(),
{
    if s.len() == 0 {
        s
    } else {
        without(s.drop_last(), d) + if s.last() == d {
            seq![]
        } else {
            seq![s.last()]
        }
    }
}

/// The ways a ghost at `p` heading `current` may take: the open ones,
/// without turning back unless that is the only way.
pub open spec fn candidate_dirs(v: PacView, p: Point, current: Direction) -> Seq<Direction> {
    let open = open_dirs(v, p);
    if open.len() <= 1 {
        open
    } else {
        let f = without(open, reverse(current));
        if f.len() == 0 {
            open
        } else {
            f
        }
    }
}

/// Steps between two cells, along rows and columns.
pub open spec fn manhattan_dist(a: Point, b: Point) -> int {
    (if a.x >= b.x { a.x - b.x } else { b.x - a.x }) + (if a.y >= b.y { a.y - b.y } else { b.y - a.y })
}

/// How far from pac-man a move from `p` towards `dir` ends (the largest
/// number when blocked).
pub open spec fn distance_after(v: PacView, p: Point, dir: Direction) -> int {
    match next_cell(v, p, dir) {
        Some(n) => manhattan_dist(n, v.pacman),
        None => usize::MAX as int,
    }
}

/// Candidate `i` of `dirs` leads nearest to pac-man among all candidates.
pub open spec fn nearest(v: PacView, g: GhostState, dirs: Seq<Direction>, i: int) -> bool {
    &&& 0 <= i < dirs.len()
    &&& forall|j: int| 0 <= j < dirs.len() ==> distance_after(v, g.pos, dirs[i]) <= distance_after(
        v,
        g.pos,
        #[trigger] dirs[j],
    )
}

/// Candidate `i` is the first of the nearest.
pub open spec fn first_nearest(v: PacView, g: GhostState, dirs: Seq<Direction>, i: int) -> bool {
    &&& nearest(v, g, dirs, i)
    &&& forall|j: int| 0 <= j < i ==> !#[trigger] nearest(v, g, dirs, j)
}

/// The hunter's pick among the candidates `dirs`: its own heading when
/// that is one of the nearest, else the first of the nearest.
pub open spec fn hunter_pick(v: PacView, g: GhostState, dirs: Seq<Direction>) -> Direction {
    if exists|i: int| nearest(v, g, dirs, i) && dirs[i] == g.dir {
        g.dir
    } else {
        dirs[choose|i: int| first_nearest(v, g, dirs, i)]
    }
}

/// The way the hunter takes.
pub open spec fn hunter_dir(v: PacView, g: GhostState) -> Direction {
    let dirs = candidate_dirs(v, g.pos, g.dir);
    if dirs.len() == 0 {
        g.dir
    } else {
        hunter_pick(v, g, dirs)
    }
}

/// The next random number after `seed`.
#[verifier::opaque]
pub open spec fn lcg_next(seed: u32) -> u32 {
    seed.wrapping_mul(1_664_525).wrapping_add(1_013_904_223)
}

/// Pac-man moved: the way the player wants if open (that becomes the
/// heading), else on along the heading if open, else not at all.
pub open spec fn moved_pacman(v: PacView) -> PacView {
    match next_cell(v, v.pacman, v.wanted_dir) {
        Some(n) => PacView { current_dir: v.wanted_dir, pacman: n, ..v },
        None => match next_cell(v, v.pacman, v.current_dir) {
            Some(n) => PacView { pacman: n, ..v },
            None => v,
        },
    }
}

/// Where pac-man goes: the way the player wants when that cell is open
/// (and it becomes the heading); when it is blocked, on along the heading
/// when that cell is open; else nowhere. Nothing else changes.
pub proof fn lemma_pacman_moves(v: PacView)
    ensures
        next_cell(v, v.pacman, v.wanted_dir) matches Some(n) ==> moved_pacman(v).pacman == n
            && moved_pacman(v).current_dir == v.wanted_dir,
        next_cell(v, v.pacman, v.wanted_dir) is None ==> moved_pacman(v).current_dir == v.current_dir,
        next_cell(v, v.pacman, v.wanted_dir) is None ==> (next_cell(v, v.pacman, v.current_dir) matches Some(n)
            ==> moved_pacman(v).pacman == n),
        next_cell(v, v.pacman, v.wanted_dir) is None && next_cell(v, v.pacman, v.current_dir) is None
            ==> moved_pacman(v).pacman == v.pacman,
        moved_pacman(v).wanted_dir == v.wanted_dir,
        moved_pacman(v).tiles == v.tiles,
{
}

/// The dot under pac-man eaten, if there is one: ten points.
pub open spec fn consumed(v: PacView) -> PacView {
    if tile_of(v, v.pacman) == TILE_DOT {
        PacView {
            tiles: v.tiles.update(index_of(v.pacman), TILE_EMPTY),
            remaining_dots: (v.remaining_dots - 1) as usize,
            score: (v.score + 10) as usize,
            ..v
        }
    } else {
        v
    }
}

/// A ghost shares pac-man's cell.
pub open spec fn collided(v: PacView) -> bool {
    exists|i: int| 0 <= i < v.ghosts.len() && #[trigger] v.ghosts[i].pos == v.pacman
}

/// A life lost: with lives to spare the round restarts after a pause,
/// else the game is over.
pub open spec fn lost_life(v: PacView) -> PacView {
    if v.lives > 1 {
        PacView { lives: (v.lives - 1) as u8, phase: Phase::LifeLost, respawn_ticks: RESPAWN_TICKS, ..v }
    } else {
        PacView { lives: 0, phase: Phase::GameOver, ..v }
    }
}

/// Ghost `i` moved: the hunter towards pac-man, the wanderer a random
/// candidate way (drawing a number); it stays when that way is blocked.
pub open spec fn ghost_moved(v: PacView, i: int) -> PacView {
    let g = v.ghosts[i];
    let dirs = candidate_dirs(v, g.pos, g.dir);
    let (dir, seed) = match g.kind {
        GhostKind::Hunter => (hunter_dir(v, g), v.seed),
        GhostKind::Wanderer => if dirs.len() == 0 {
            (g.dir, v.seed)
        } else {
            (dirs[(lcg_next(v.seed) % (dirs.len() as u32)) as int], lcg_next(v.seed))
        },
    };
    match next_cell(v, g.pos, dir) {
        Some(n) => PacView { ghosts: v.ghosts.update(i, GhostState { pos: n, dir, kind: g.kind }), seed, ..v },
        None => PacView { seed, ..v },
    }
}

/// One tick of a running game: pac-man moves and eats; with no dot left
/// the player wins; meeting a ghost costs a life; else the ghosts move in
/// turn and may catch pac-man.
pub open spec fn tick_running_view(v: PacView) -> PacView {
    let a = consumed(moved_pacman(v));
    if a.remaining_dots == 0 {
        PacView { phase: Phase::Victory, ..a }
    } else if collided(a) {
        lost_life(a)
    } else {
        let b = ghost_moved(ghost_moved(a, 0), 1);
        if collided(b) {
            lost_life(b)
        } else {
            b
        }
    }
}

/// Pac-man and the ghosts back at their starting cells.
pub open spec fn positions_reset(v: PacView) -> PacView {
    PacView {
        pacman: pacman_start(),
        current_dir: Direction::Right,
        wanted_dir: Direction::Right,
        ghosts: start_ghosts(),
        respawn_ticks: 0,
        ..v
    }
}

/// One tick: a running game plays on; after a lost life the pause counts
/// down and play resumes from the start cells; otherwise nothing changes.
pub open spec fn tick_view(v: PacView) -> PacView {
    match v.phase {
        Phase::Running => tick_running_view(v),
        Phase::LifeLost => {
            let rt = if v.respawn_ticks > 0 { (v.respawn_ticks - 1) as u8 } else { v.respawn_ticks };
            if rt == 0 {
                PacView { phase: Phase::Running, ..positions_reset(PacView { respawn_ticks: rt, ..v }) }
            } else {
                PacView { respawn_ticks: rt, ..v }
            }
        },
        _ => v,
    }
}

/// Cell `p` is inside the maze and not wall.
pub open spec fn walkable(v: PacView, p: Point) -> bool {
    &&& in_map(p)
    &&& tile_of(v, p) != TILE_WALL
}

/// The maze's border is wall, pac-man and the ghosts stand on walkable
/// cells, the dot count is right and the score fits.
pub open spec fn pac_wf(v: PacView) -> bool {
    &&& v.tiles.len() == MAP_CELLS
    &&& forall|i: int|
        0 <= i < MAP_CELLS && (i % 21 == 0 || i / 21 == 0 || i % 21 == 20 || i / 21 == 20) ==> #[trigger] v.tiles[i]
            == TILE_WALL
    &&& walkable(v, v.pacman)
    &&& v.ghosts.len() == GHOST_COUNT
    &&& forall|i: int| 0 <= i < GHOST_COUNT ==> walkable(v, #[trigger] v.ghosts[i].pos)
    &&& v.remaining_dots == count_dots(v.tiles)
    &&& v.score + 10 * v.remaining_dots <= 10 * MAP_CELLS
    &&& v.lives <= 3
    &&& v.tiles[44] != TILE_WALL
    &&& v.tiles[219] != TILE_WALL
    &&& v.tiles[221] != TILE_WALL
}

/// The maze of a new game.
pub open spec fn fresh_tiles() -> Seq<u8> {
    Seq::new(MAP_CELLS as nat, |i: int| fresh_tile(i % 21, i / 21))
}

/// The game.
pub struct Game {
    pub tiles: Vec<u8>,
    pub pacman: Point,
    pub current_dir: Direction,
    pub wanted_dir: Direction,
    pub ghosts: Vec<GhostState>,
    pub remaining_dots: usize,
    pub score: usize,
    pub lives: u8,
    pub phase: Phase,
    pub respawn_ticks: u8,
    pub seed: u32,
}

impl View for Game {
    type V = PacView;

    open spec fn view(&self) -> PacView {
        PacView {
            tiles: self.tiles@,
            pacman: self.pacman,
            current_dir: self.current_dir,
            wanted_dir: self.wanted_dir,
            ghosts: self.ghosts@,
            remaining_dots: self.remaining_dots,
            score: self.score,
            lives: self.lives,
            phase: self.phase,
            respawn_ticks: self.respawn_ticks,
            seed: self.seed,
        }
    }
}

/// Whether cell `(x, y)` lies in one of the wall blocks.
fn in_wall_block(x: usize, y: usize) -> (r: bool)
    ensures
        r == exists|k: int| 0 <= k < 9 && {
            let b = #[trigger] wall_blocks()[k];
            b.0 <= x < b.0 + b.2 && b.1 <= y < b.1 + b.3
        },
{
    let blocks: [(usize, usize, usize, usize); 9] = [
        (3, 3, 3, 3),
        (8, 3, 5, 2),
        (15, 3, 3, 3),
        (5, 8, 2, 5),
        (9, 8, 3, 2),
        (14, 8, 2, 5),
        (3, 15, 3, 3),
        (8, 16, 5, 2),
        (15, 15, 3, 3),
    ];
    proof {
        assert forall|k: int| 0 <= k < 9 implies (#[trigger] wall_blocks()[k]).0 == blocks@[k].0 && wall_blocks()[k].1
            == blocks@[k].1 && wall_blocks()[k].2 == blocks@[k].2 && wall_blocks()[k].3 == blocks@[k].3 by {}
    }
    let mut k: usize = 0;
    while k < 9
        invariant
            k <= 9,
            blocks@.len() == 9,
            forall|j: int| 0 <= j < 9 ==> (#[trigger] wall_blocks()[j]).0 == blocks@[j].0 && wall_blocks()[j].1
                == blocks@[j].1 && wall_blocks()[j].2 == blocks@[j].2 && wall_blocks()[j].3 == blocks@[j].3,
            forall|j: int| 0 <= j < k ==> !({
                let b = #[trigger] wall_blocks()[j];
                b.0 <= x < b.0 + b.2 && b.1 <= y < b.1 + b.3
            }),
        decreases 9 - k,
    {
        let (bx, by, bw, bh) = blocks[k];
        if bx <= x && x - bx < bw && by <= y && y - by < bh {
            assert({
                let b = wall_blocks()[k as int];
                b.0 <= x < b.0 + b.2 && b.1 <= y < b.1 + b.3
            });
            return true;
        }
        k = k + 1;
    }
    false
}

/// The tile of cell `(x, y)` in a fresh maze.
fn fresh_tile_at(x: usize, y: usize) -> (r: u8)
    ensures
        r == fresh_tile(x as int, y as int),
{
    if (x == 2 && y == 2) || (x == 9 && y == 10) || (x == 11 && y == 10) {
        TILE_EMPTY
    } else if x == 0 || y == 0 || x == MAP_W - 1 || y == MAP_H - 1 || in_wall_block(x, y) {
        TILE_WALL
    } else {
        TILE_DOT
    }
}

/// Counts the dots.
fn count_dot_tiles(tiles: &Vec<u8>) -> (r: usize)
    ensures
        r == count_dots(tiles@),
{
    let mut n: usize = 0;
    let mut i: usize = 0;
    while i < tiles.len()
        invariant
            i <= tiles@.len(),
            n == count_dots(tiles@.take(i as int)),
            n <= i,
        decreases tiles.len() - i,
    {
        assert(tiles@.take(i + 1).drop_last() =~= tiles@.take(i as int));
        if tiles[i] == TILE_DOT {
            n = n + 1;
        }
        i = i + 1;
    }
    assert(tiles@.take(i as int) =~= tiles@);
    n
}

proof fn lemma_without_len(s: Seq<Direction>, d: Direction)
    ensures
        without(s, d).len() <= s.len(),
    decreases s.len(),
{
    if s.len() > 0 {
        lemma_without_len(s.drop_last(), d);
    }
}

proof fn lemma_candidate_len(v: PacView, p: Point, current: Direction)
    ensures
        candidate_dirs(v, p, current).len() <= 4,
{
    lemma_without_len(open_dirs(v, p), reverse(current));
}

proof fn lemma_index_parts(p: Point)
    requires
        in_map(p),
    ensures
        index_of(p) % 21 == p.x,
        index_of(p) / 21 == p.y,
        0 <= index_of(p) < MAP_CELLS,
{
    assert((p.y * 21 + p.x) % 21 == p.x && (p.y * 21 + p.x) / 21 == p.y) by (nonlinear_arith)
        requires
            0 <= p.x < 21,
            0 <= p.y < 21,
    ;
}

/// A walkable cell is off the border, so every neighbour lies in the maze.
proof fn lemma_walkable_inner(v: PacView, p: Point)
    requires
        pac_wf(v),
        walkable(v, p),
    ensures
        1 <= p.x <= 19,
        1 <= p.y <= 19,
{
    lemma_index_parts(p);
}

/// A fresh game with seed `seed` mixed in: full maze, three lives,
/// everyone at the start cells.
pub open spec fn fresh_game(v: PacView, seed: u32) -> PacView {
    positions_reset(
        PacView {
            seed: seed.wrapping_add(0x9e37_79b9),
            score: 0,
            lives: 3,
            phase: Phase::Running,
            respawn_ticks: 0,
            tiles: fresh_tiles(),
            remaining_dots: count_dots(fresh_tiles()) as usize,
            ..v
        },
    )
}

impl Game {
    /// The index of a cell.
    pub fn index(&self, point: Point) -> (r: usize)
        requires
            in_map(point),
        ensures
            r == index_of(point),
    {
        point.y as usize * MAP_W + point.x as usize
    }

    /// The tile at a cell.
    pub fn tile_at(&self, point: Point) -> (r: u8)
        requires
            in_map(point),
            self.tiles@.len() == MAP_CELLS,
        ensures
            r == tile_of(self@, point),
    {
        proof {
            lemma_index_parts(point);
        }
        self.tiles[self.index(point)]
    }

    /// Sets the tile at a cell.
    pub fn set_tile(&mut self, point: Point, tile: u8)
        requires
            in_map(point),
            old(self).tiles@.len() == MAP_CELLS,
        ensures
            final(self)@ == (PacView { tiles: old(self)@.tiles.update(index_of(point), tile), ..old(self)@ }),
    {
        proof {
            lemma_index_parts(point);
        }
        let idx = self.index(point);
        self.tiles.set(idx, tile);
    }

    /// The cell one step from `point` towards `dir`, unless it is wall.
    pub fn next_point(&self, point: Point, dir: Direction) -> (r: Option<Point>)
        requires
            pac_wf(self@),
            walkable(self@, point),
        ensures
            r == next_cell(self@, point, dir),
            r matches Some(n) ==> walkable(self@, n),
    {
        proof {
            lemma_walkable_inner(self@, point);
        }
        let next = match dir {
            Direction::Up => Point { x: point.x, y: point.y - 1 },
            Direction::Left => Point { x: point.x - 1, y: point.y },
            Direction::Down => Point { x: point.x, y: point.y + 1 },
            Direction::Right => Point { x: point.x + 1, y: point.y },
        };
        if self.tile_at(next) != TILE_WALL {
            Some(next)
        } else {
            None
        }
    }

    /// Steps between two cells, along rows and columns.
    pub fn manhattan(&self, a: Point, b: Point) -> (r: usize)
        ensures
            r == manhattan_dist(a, b),
    {
        let dx = if a.x >= b.x {
            a.x - b.x
        } else {
            b.x - a.x
        };
        let dy = if a.y >= b.y {
            a.y - b.y
        } else {
            b.y - a.y
        };
        dx as usize + dy as usize
    }

    /// How far from pac-man a move from `point` towards `dir` ends.
    pub fn distance_after_move(&self, point: Point, dir: Direction) -> (r: usize)
        requires
            pac_wf(self@),
            walkable(self@, point),
        ensures
            r == distance_after(self@, point, dir),
    {
        match self.next_point(point, dir) {
            Some(next) => self.manhattan(next, self.pacman),
            None => usize::MAX,
        }
    }

    /// The ways a ghost at `point` heading `current` may take.
    pub fn collect_dirs(&self, point: Point, current: Direction) -> (r: Vec<Direction>)
        requires
            pac_wf(self@),
            walkable(self@, point),
        ensures
            r@ == candidate_dirs(self@, point, current),
    {
        let mut dirs: Vec<Direction> = Vec::new();
        if self.next_point(point, Direction::Up).is_some() {
            dirs.push(Direction::Up);
        }
        if self.next_point(point, Direction::Left).is_some() {
            dirs.push(Direction::Left);
        }
        if self.next_point(point, Direction::Down).is_some() {
            dirs.push(Direction::Down);
        }
        if self.next_point(point, Direction::Right).is_some() {
            dirs.push(Direction::Right);
        }
        assert(dirs@ =~= open_dirs(self@, point));
        if dirs.len() <= 1 {
            return dirs;
        }
        let opposite = current.opposite();
        let mut filtered: Vec<Direction> = Vec::new();
        let mut i: usize = 0;
        while i < dirs.len()
            invariant
                i <= dirs@.len(),
                filtered@ == without(dirs@.take(i as int), opposite),
            decreases dirs.len() - i,
        {
            assert(dirs@.take(i + 1).drop_last() =~= dirs@.take(i as int));
            if dirs[i] != opposite {
                filtered.push(dirs[i]);
            }
            i = i + 1;
        }
        assert(dirs@.take(i as int) =~= dirs@);
        if filtered.len() == 0 {
            dirs
        } else {
            filtered
        }
    }

    /// The way the hunter takes.
    pub fn choose_hunter_dir(&self, ghost: GhostState) -> (r: Direction)
        requires
            pac_wf(self@),
            walkable(self@, ghost.pos),
        ensures
            r == hunter_dir(self@, ghost),
    {
        let dirs = self.collect_dirs(ghost.pos, ghost.dir);
        if dirs.len() == 0 {
            return ghost.dir;
        }
        let ghost dv = dirs@;
        let mut best = dirs[0];
        let mut best_dist = self.distance_after_move(ghost.pos, dirs[0]);
        let mut bi: usize = 0;
        let mut i: usize = 1;
        while i < dirs.len()
            invariant
                1 <= i <= dirs@.len(),
                dv == dirs@,
                pac_wf(self@),
                walkable(self@, ghost.pos),
                bi < i,
                dv[bi as int] == best,
                best_dist == distance_after(self@, ghost.pos, best),
                forall|j: int| 0 <= j < i ==> best_dist <= distance_after(self@, ghost.pos, #[trigger] dv[j]),
                (exists|j: int| 0 <= j < i && dv[j] == ghost.dir && distance_after(self@, ghost.pos, #[trigger] dv[j])
                    == best_dist) ==> best == ghost.dir,
                best != ghost.dir ==> forall|j: int| 0 <= j < bi ==> best_dist < distance_after(self@, ghost.pos, #[trigger] dv[j]),
            decreases dirs.len() - i,
        {
            let dir = dirs[i];
            let dist = self.distance_after_move(ghost.pos, dir);
            if dist < best_dist || (dist == best_dist && dir == ghost.dir) {
                best = dir;
                best_dist = dist;
                bi = i;
            }
            i = i + 1;
        }
        proof {
            let n = dv.len() as int;
            assert(nearest(self@, ghost, dv, bi as int));
            if exists|k: int| nearest(self@, ghost, dv, k) && dv[k] == ghost.dir {
                let k = choose|k: int| nearest(self@, ghost, dv, k) && dv[k] == ghost.dir;
                assert(distance_after(self@, ghost.pos, dv[k]) <= best_dist);
                assert(distance_after(self@, ghost.pos, dv[k]) == best_dist);
            } else {
                assert(best != ghost.dir);
                assert forall|j: int| 0 <= j < bi implies !#[trigger] nearest(self@, ghost, dv, j) by {
                    assert(best_dist < distance_after(self@, ghost.pos, dv[j]));
                    assert(distance_after(self@, ghost.pos, dv[j]) > distance_after(self@, ghost.pos, dv[bi as int]));
                }
                assert(first_nearest(self@, ghost, dv, bi as int));
                let c = choose|c: int| first_nearest(self@, ghost, dv, c);
                if c < bi {
                    assert(!nearest(self@, ghost, dv, c));
                } else if c > bi {
                    assert(!nearest(self@, ghost, dv, bi as int));
                }
            }
        }
        best
    }

    /// Advances the seed and gives a number below `limit`.
    pub fn random(&mut self, limit: u32) -> (r: u32)
        requires
            limit > 0,
        ensures
            final(self)@ == (PacView { seed: lcg_next(old(self).seed), ..old(self)@ }),
            r == lcg_next(old(self).seed) % limit,
    {
        proof {
            reveal(lcg_next);
        }
        self.seed = self.seed.wrapping_mul(1_664_525).wrapping_add(1_013_904_223);
        self.seed % limit
    }

    /// The way the wanderer takes: a random candidate.
    pub fn choose_wander_dir(&mut self, ghost: GhostState) -> (r: Direction)
        requires
            pac_wf(old(self)@),
            walkable(old(self)@, ghost.pos),
        ensures
            ({
                let dirs = candidate_dirs(old(self)@, ghost.pos, ghost.dir);
                if dirs.len() == 0 {
                    r == ghost.dir && final(self)@ == old(self)@
                } else {
                    &&& r == dirs[(lcg_next(old(self).seed) % (dirs.len() as u32)) as int]
                    &&& final(self)@ == (PacView { seed: lcg_next(old(self).seed), ..old(self)@ })
                }
            }),
    {
        let dirs = self.collect_dirs(ghost.pos, ghost.dir);
        if dirs.len() == 0 {
            return ghost.dir;
        }
        proof {
            lemma_candidate_len(self@, ghost.pos, ghost.dir);
        }
        let pick = self.random(dirs.len() as u32);
        dirs[pick as usize]
    }

    /// Eats the dot under pac-man, if there is one.
    pub fn consume_dot(&mut self)
        requires
            pac_wf(old(self)@),
        ensures
            pac_wf(final(self)@),
            final(self)@ == consumed(old(self)@),
    {
        if self.tile_at(self.pacman) == TILE_DOT {
            let ghost before = self@;
            proof {
                lemma_index_parts(self.pacman);
                lemma_count_dots_update(self.tiles@, index_of(self.pacman), TILE_EMPTY);
            }
            let p = self.pacman;
            self.set_tile(p, TILE_EMPTY);
            self.remaining_dots = self.remaining_dots - 1;
            self.score = self.score + 10;
            proof {
                assert forall|i: int|
                    0 <= i < MAP_CELLS && (i % 21 == 0 || i / 21 == 0 || i % 21 == 20 || i / 21 == 20) implies #[trigger] self.tiles@[i]
                        == TILE_WALL by {
                    assert(before.tiles[i] == TILE_WALL);
                }
                assert forall|i: int| 0 <= i < GHOST_COUNT implies walkable(self@, #[trigger] self@.ghosts[i].pos) by {
                    assert(walkable(before, before.ghosts[i].pos));
                    lemma_index_parts(before.ghosts[i].pos);
                }
                assert(before.tiles[44] != TILE_WALL);
                assert(before.tiles[219] != TILE_WALL);
                assert(before.tiles[221] != TILE_WALL);
            }
        }
    }

    /// Loses a life.
    pub fn lose_life(&mut self)
        ensures
            final(self)@ == lost_life(old(self)@),
    {
        if self.lives > 1 {
            self.lives = self.lives - 1;
            self.phase = Phase::LifeLost;
            self.respawn_ticks = RESPAWN_TICKS;
        } else {
            self.lives = 0;
            self.phase = Phase::GameOver;
        }
    }

    /// Loses a life if a ghost shares pac-man's cell; gives whether one did.
    pub fn check_collision(&mut self) -> (r: bool)
        requires
            old(self).ghosts@.len() == GHOST_COUNT,
        ensures
            r == collided(old(self)@),
            final(self)@ == if r { lost_life(old(self)@) } else { old(self)@ },
    {
        let mut i: usize = 0;
        while i < self.ghosts.len()
            invariant
                i <= self.ghosts@.len(),
                self@ == old(self)@,
                forall|j: int| 0 <= j < i ==> #[trigger] self.ghosts@[j].pos != self.pacman,
            decreases self.ghosts.len() - i,
        {
            if self.ghosts[i].pos == self.pacman {
                assert(self@.ghosts[i as int].pos == self@.pacman);
                self.lose_life();
                return true;
            }
            i = i + 1;
        }
        false
    }

    /// Pac-man and the ghosts back at their starting cells.
    pub fn reset_positions(&mut self)
        ensures
            final(self)@ == positions_reset(old(self)@),
    {
        self.pacman = Point { x: 2, y: 2 };
        self.current_dir = Direction::Right;
        self.wanted_dir = Direction::Right;
        let mut ghosts: Vec<GhostState> = Vec::new();
        ghosts.push(GhostState { pos: Point { x: 9, y: 10 }, dir: Direction::Left, kind: GhostKind::Hunter });
        ghosts.push(GhostState { pos: Point { x: 11, y: 10 }, dir: Direction::Right, kind: GhostKind::Wanderer });
        self.ghosts = ghosts;
        self.respawn_ticks = 0;
        assert(self.ghosts@ =~= start_ghosts());
    }

    /// A fresh maze: border and blocks of wall, dots elsewhere but on the
    /// start cells; the dots counted.
    pub fn reset_board(&mut self)
        ensures
            final(self)@ == (PacView {
                tiles: fresh_tiles(),
                remaining_dots: count_dots(fresh_tiles()) as usize,
                ..old(self)@
            }),
    {
        let mut tiles: Vec<u8> = Vec::new();
        let mut i: usize = 0;
        while i < MAP_CELLS
            invariant
                i <= MAP_CELLS,
                tiles@ == fresh_tiles().take(i as int),
            decreases MAP_CELLS - i,
        {
            let t = fresh_tile_at(i % MAP_W, i / MAP_W);
            tiles.push(t);
            i = i + 1;
            assert(tiles@ =~= fresh_tiles().take(i as int));
        }
        assert(tiles@ =~= fresh_tiles());
        let count = count_dot_tiles(&tiles);
        self.tiles = tiles;
        self.remaining_dots = count;
    }

    /// Moves pac-man: the way the player wants if open, else on.
    pub fn move_pacman(&mut self)
        requires
            pac_wf(old(self)@),
        ensures
            pac_wf(final(self)@),
            final(self)@ == moved_pacman(old(self)@),
            next_cell(old(self)@, old(self).pacman, old(self).wanted_dir) matches Some(n)
                ==> final(self).pacman == n && final(self).current_dir == old(self).wanted_dir,
            next_cell(old(self)@, old(self).pacman, old(self).wanted_dir) is None ==> final(self).current_dir
                == old(self).current_dir && final(self).pacman == match next_cell(
                old(self)@,
                old(self).pacman,
                old(self).current_dir,
            ) {
                Some(n) => n,
                None => old(self).pacman,
            },
    {
        let p = self.pacman;
        let wanted = self.wanted_dir;
        let current = self.current_dir;
        if let Some(next) = self.next_point(p, wanted) {
            self.current_dir = wanted;
            self.pacman = next;
        } else if let Some(next) = self.next_point(p, current) {
            self.pacman = next;
        }
    }

    /// Moves ghost `i` its kind's way.
    pub fn move_ghost(&mut self, i: usize)
        requires
            pac_wf(old(self)@),
            i < GHOST_COUNT,
        ensures
            pac_wf(final(self)@),
            final(self)@ == ghost_moved(old(self)@, i as int),
    {
        let g = self.ghosts[i];
        assert(walkable(self@, g.pos));
        let dir = match g.kind {
            GhostKind::Hunter => self.choose_hunter_dir(g),
            GhostKind::Wanderer => self.choose_wander_dir(g),
        };
        if let Some(next) = self.next_point(g.pos, dir) {
            self.ghosts.set(i, GhostState { pos: next, dir, kind: g.kind });
            proof {
                assert forall|j: int| 0 <= j < GHOST_COUNT implies walkable(self@, #[trigger] self@.ghosts[j].pos) by {
                    if j != i {
                        assert(self@.ghosts[j] == old(self)@.ghosts[j]);
                    }
                }
            }
        }
        assert(self@ =~= ghost_moved(old(self)@, i as int));
    }

    /// One tick of a running game.
    pub fn tick_running(&mut self)
        requires
            pac_wf(old(self)@),
        ensures
            pac_wf(final(self)@),
            final(self)@ == tick_running_view(old(self)@),
    {
        self.move_pacman();
        self.consume_dot();
        if self.remaining_dots == 0 {
            self.phase = Phase::Victory;
            return;
        }
        if self.check_collision() {
            return;
        }
        self.move_ghost(0);
        self.move_ghost(1);
        self.check_collision();
    }

    /// One tick: a running game plays on; after a lost life the pause
    /// counts down and play resumes; otherwise nothing changes.
    pub fn tick(&mut self)
        requires
            pac_wf(old(self)@),
        ensures
            pac_wf(final(self)@),
            final(self)@ == tick_view(old(self)@),
    {
        match self.phase {
            Phase::Running => self.tick_running(),
            Phase::LifeLost => {
                if self.respawn_ticks > 0 {
                    self.respawn_ticks = self.respawn_ticks - 1;
                }
                if self.respawn_ticks == 0 {
                    self.reset_positions();
                    self.phase = Phase::Running;
                    proof {
                        assert(walkable(self@, self@.pacman)) by {
                            lemma_index_parts(self@.pacman);
                        }
                        assert forall|j: int| 0 <= j < GHOST_COUNT implies walkable(self@, #[trigger] self@.ghosts[j].pos) by {
                            lemma_index_parts(self@.ghosts[j].pos);
                        }
                    }
                }
            },
            _ => {},
        }
    }

    /// A new game: seed mixed, score 0, three lives, fresh maze, everyone at the start.
    pub fn reset(&mut self, seed: u32)
        ensures
            pac_wf(final(self)@),
            final(self)@ == fresh_game(old(self)@, seed),
    {
        self.seed = seed.wrapping_add(0x9e37_79b9);
        self.score = 0;
        self.lives = 3;
        self.phase = Phase::Running;
        self.respawn_ticks = 0;
        self.reset_board();
        self.reset_positions();
        proof {
            lemma_count_dots_le(fresh_tiles());
            lemma_fresh_wf(self@);
        }
    }

    /// A new game.
    pub fn new(seed: u32) -> (r: Game)
        ensures
            pac_wf(r@),
            r@ == fresh_game(r@, seed),
    {
        let mut game = Game {
            tiles: Vec::new(),
            pacman: Point { x: 2, y: 2 },
            current_dir: Direction::Right,
            wanted_dir: Direction::Right,
            ghosts: Vec::new(),
            remaining_dots: 0,
            score: 0,
            lives: 3,
            phase: Phase::Running,
            respawn_ticks: 0,
            seed,
        };
        game.reset(seed);
        game
    }

    /// Pauses a running game or resumes a paused one.
    pub fn toggle_pause(&mut self)
        ensures
            final(self)@ == (PacView {
                phase: match old(self).phase {
                    Phase::Running => Phase::Paused,
                    Phase::Paused => Phase::Running,
                    other => other,
                },
                ..old(self)@
            }),
    {
        match self.phase {
            Phase::Running => {
                self.phase = Phase::Paused;
            },
            Phase::Paused => {
                self.phase = Phase::Running;
            },
            _ => {},
        }
    }

    /// Starts a new game if this one has ended.
    pub fn restart_if_possible(&mut self, seed: u32)
        requires
            pac_wf(old(self)@),
        ensures
            pac_wf(final(self)@),
            final(self)@ == if old(self).phase == Phase::Victory || old(self).phase == Phase::GameOver {
                fresh_game(old(self)@, seed)
            } else {
                old(self)@
            },
    {
        match self.phase {
            Phase::Victory | Phase::GameOver => self.reset(seed),
            _ => {},
        }
    }

    /// Milliseconds to wait before the next tick.
    pub fn frame_delay(&self) -> (r: usize)
        ensures
            r == match self.phase {
                Phase::Running => 120usize,
                Phase::LifeLost => 100usize,
                Phase::Paused => 60usize,
                _ => 80usize,
            },
    {
        match self.phase {
            Phase::Running => TICK_MS,
            Phase::LifeLost => 100,
            Phase::Paused => 60,
            _ => 80,
        }
    }

    /// Applies one byte from the input pipe: w, a, s, d set the way the
    /// player wants; gives whether it was q (quit).
    pub fn handle_pipe_byte(&mut self, byte: u8) -> (quit: bool)
        ensures
            quit == (byte == 0x71),
            final(self)@ == if byte == 0x77 {
                PacView { wanted_dir: Direction::Up, ..old(self)@ }
            } else if byte == 0x61 {
                PacView { wanted_dir: Direction::Left, ..old(self)@ }
            } else if byte == 0x73 {
                PacView { wanted_dir: Direction::Down, ..old(self)@ }
            } else if byte == 0x64 {
                PacView { wanted_dir: Direction::Right, ..old(self)@ }
            } else {
                old(self)@
            },
    {
        if byte == 0x77 {
            self.wanted_dir = Direction::Up;
        } else if byte == 0x61 {
            self.wanted_dir = Direction::Left;
        } else if byte == 0x73 {
            self.wanted_dir = Direction::Down;
        } else if byte == 0x64 {
            self.wanted_dir = Direction::Right;
        }
        byte == 0x71
    }

}

proof fn lemma_fresh_wf(v: PacView)
    requires
        v.tiles == fresh_tiles(),
        v.remaining_dots == count_dots(fresh_tiles()),
        v.score == 0,
        v.lives == 3,
        v.pacman == pacman_start(),
        v.ghosts == start_ghosts(),
    ensures
        pac_wf(v),
{
    lemma_count_dots_le(fresh_tiles());
    assert forall|i: int|
        0 <= i < MAP_CELLS && (i % 21 == 0 || i / 21 == 0 || i % 21 == 20 || i / 21 == 20) implies #[trigger] v.tiles[i]
            == TILE_WALL by {
        assert(is_wall_cell(i % 21, i / 21));
    }
    lemma_index_parts(v.pacman);
    assert(fresh_tile(44int % 21, 44int / 21) == TILE_EMPTY);
    assert(fresh_tile(219int % 21, 219int / 21) == TILE_EMPTY);
    assert(fresh_tile(221int % 21, 221int / 21) == TILE_EMPTY);
    assert forall|i: int| 0 <= i < GHOST_COUNT implies walkable(v, #[trigger] v.ghosts[i].pos) by {
        lemma_index_parts(v.ghosts[i].pos);
    }
}

/// What a key pressed in the input process does.
#[derive(Clone, Copy, PartialEq, Eq, Structural, Debug)]
pub enum KeyCommand {
    /// Ignored.
    Ignore,
    /// Sent down the pipe as this byte.
    Send(u8),
    /// Signals the game to pause or resume.
    Pause,
    /// Signals the game to restart.
    Restart,
    /// Sends q down the pipe and stops.
    Quit,
}

/// What a key pressed in the input process does: w, a, s, d go down the
/// pipe in lower case, p and r are signalled, q quits (either case).
pub fn key_command(ch: u8) -> (r: KeyCommand)
    ensures
        r == if ch == 0x77 || ch == 0x57 {
            KeyCommand::Send(0x77)
        } else if ch == 0x61 || ch == 0x41 {
            KeyCommand::Send(0x61)
        } else if ch == 0x73 || ch == 0x53 {
            KeyCommand::Send(0x73)
        } else if ch == 0x64 || ch == 0x44 {
            KeyCommand::Send(0x64)
        } else if ch == 0x70 || ch == 0x50 {
            KeyCommand::Pause
        } else if ch == 0x72 || ch == 0x52 {
            KeyCommand::Restart
        } else if ch == 0x71 || ch == 0x51 {
            KeyCommand::Quit
        } else {
            KeyCommand::Ignore
        },
{
    if ch == 0x77 || ch == 0x57 {
        KeyCommand::Send(0x77)
    } else if ch == 0x61 || ch == 0x41 {
        KeyCommand::Send(0x61)
    } else if ch == 0x73 || ch == 0x53 {
        KeyCommand::Send(0x73)
    } else if ch == 0x64 || ch == 0x44 {
        KeyCommand::Send(0x64)
    } else if ch == 0x70 || ch == 0x50 {
        KeyCommand::Pause
    } else if ch == 0x72 || ch == 0x52 {
        KeyCommand::Restart
    } else if ch == 0x71 || ch == 0x51 {
        KeyCommand::Quit
    } else {
        KeyCommand::Ignore
    }
}

/// Where the maze goes on the screen and how big its cells are.
#[derive(Clone, Copy, PartialEq, Eq, Structural, Debug)]
pub struct Layout {
    pub width: usize,
    pub height: usize,
    pub cell: usize,
    pub board_left: usize,
    pub board_top: usize,
    pub board_width: usize,
    pub board_height: usize,
}

/// `a - b`, or 0 when `b` is larger.
pub open spec fn sat_sub(a: int, b: int) -> int {
    if a >= b {
        a - b
    } else {
        0
    }
}

/// The larger of two numbers.
pub open spec fn max_of(a: int, b: int) -> int {
    if a >= b {
        a
    } else {
        b
    }
}

/// The smaller of two numbers.
pub open spec fn min_of(a: int, b: int) -> int {
    if a <= b {
        a
    } else {
        b
    }
}

/// The layout on a `width` by `height` screen: square cells as large as
/// fit below the score bar within the margins (at least 6 pixels), the
/// maze centred across and centred below the bar.
pub open spec fn layout_of(width: int, height: int) -> Layout {
    let cell_w = sat_sub(width, (BOARD_MARGIN * 2) as int) / 21;
    let cell_h = sat_sub(height, (HUD_HEIGHT + BOARD_MARGIN * 2) as int) / 21;
    let cell = max_of(6, min_of(cell_w, cell_h));
    let board = cell * 21;
    Layout {
        width: width as usize,
        height: height as usize,
        cell: cell as usize,
        board_left: (sat_sub(width, board) / 2) as usize,
        board_top: (HUD_HEIGHT + sat_sub(height, HUD_HEIGHT + board + BOARD_MARGIN) / 2) as usize,
        board_width: board as usize,
        board_height: board as usize,
    }
}

impl Layout {
    /// The layout on a `width` by `height` screen.
    pub fn new(width: usize, height: usize) -> (r: Layout)
        requires
            width <= MAX_SIDE,
            height <= MAX_SIDE,
        ensures
            r == layout_of(width as int, height as int),
            r.cell <= MAX_SIDE,
            r.board_left <= MAX_SIDE,
            r.board_top <= 2 * MAX_SIDE,
            r.board_width == r.cell * 21,
            r.board_height == r.cell * 21,
    {
        let cell_w = width.saturating_sub(BOARD_MARGIN * 2) / MAP_W;
        let cell_h = height.saturating_sub(HUD_HEIGHT + BOARD_MARGIN * 2) / MAP_H;
        let smaller = if cell_w <= cell_h {
            cell_w
        } else {
            cell_h
        };
        let cell = if smaller >= 6 {
            smaller
        } else {
            6
        };
        let board_width = cell * MAP_W;
        let board_height = cell * MAP_H;
        let board_left = width.saturating_sub(board_width) / 2;
        let board_top = HUD_HEIGHT + height.saturating_sub(HUD_HEIGHT + board_height + BOARD_MARGIN) / 2;
        Layout { width, height, cell, board_left, board_top, board_width, board_height }
    }
}

/// The layout's numbers are small enough to add and multiply freely.
pub open spec fn layout_ok(l: Layout) -> bool {
    &&& l.cell <= MAX_SIDE
    &&& l.board_left <= MAX_SIDE
    &&& l.board_top <= 2 * MAX_SIDE
    &&& l.board_width == l.cell * 21
    &&& l.board_height == l.cell * 21
}

/// The top left pixel of a cell.
pub open spec fn origin_of(p: Point, l: Layout) -> (int, int) {
    (l.board_left + p.x * l.cell, l.board_top + p.y * l.cell)
}

/// The top left pixel of a cell.
pub fn cell_origin(point: Point, layout: Layout) -> (r: (usize, usize))
    requires
        layout_ok(layout),
        in_map(point),
    ensures
        r.0 == origin_of(point, layout).0,
        r.1 == origin_of(point, layout).1,
        r.0 <= 22 * MAX_SIDE,
        r.1 <= 23 * MAX_SIDE,
{
    proof {
        assert(point.x * layout.cell <= 20 * MAX_SIDE) by (nonlinear_arith)
            requires
                point.x < 21,
                layout.cell <= MAX_SIDE,
        ;
        assert(point.y * layout.cell <= 20 * MAX_SIDE) by (nonlinear_arith)
            requires
                point.y < 21,
                layout.cell <= MAX_SIDE,
        ;
    }
    (layout.board_left + point.x as usize * layout.cell, layout.board_top + point.y as usize * layout.cell)
}

/// The square of a wall cell.
pub open spec fn cell_square(p: Point, l: Layout, color: u32) -> Rect {
    rect(origin_of(p, l).0, origin_of(p, l).1, l.cell as int, l.cell as int, color)
}

/// The square of a wall cell.
pub fn draw_cell(point: Point, layout: Layout, color: u32) -> (r: Rect)
    requires
        layout_ok(layout),
        in_map(point),
    ensures
        r == cell_square(point, layout, color),
{
    let (x, y) = cell_origin(point, layout);
    Rect { x, y, w: layout.cell, h: layout.cell, color }
}

/// The small square of a dot, centred in its cell.
pub open spec fn dot_square(p: Point, l: Layout) -> Rect {
    let dot = max_of(2, (l.cell / 4) as int);
    let offset = sat_sub(l.cell as int, dot) / 2;
    rect(origin_of(p, l).0 + offset, origin_of(p, l).1 + offset, dot, dot, COLOR_DOT)
}

/// The small square of a dot.
pub fn draw_dot(point: Point, layout: Layout) -> (r: Rect)
    requires
        layout_ok(layout),
        in_map(point),
    ensures
        r == dot_square(point, layout),
{
    let (x, y) = cell_origin(point, layout);
    let dot = if layout.cell / 4 >= 2 {
        layout.cell / 4
    } else {
        2
    };
    let offset = layout.cell.saturating_sub(dot) / 2;
    Rect { x: x + offset, y: y + offset, w: dot, h: dot, color: COLOR_DOT }
}

/// Pac-man: a square inset in its cell with a mouth cut facing its way.
pub open spec fn pacman_rects(p: Point, dir: Direction, l: Layout) -> Seq<Rect> {
    let inset = max_of(1, (l.cell / 8) as int);
    let size = sat_sub(l.cell as int, inset * 2);
    let bx = origin_of(p, l).0 + inset;
    let by = origin_of(p, l).1 + inset;
    let cut = max_of(2, size / 3);
    seq![
        rect(bx, by, size, size, COLOR_PACMAN),
        match dir {
            Direction::Up => rect(bx + cut, by, cut, size / 2, COLOR_BOARD),
            Direction::Left => rect(bx, by + cut, size / 2, cut, COLOR_BOARD),
            Direction::Down => rect(bx + cut, by + size / 2, cut, size / 2, COLOR_BOARD),
            Direction::Right => rect(bx + size / 2, by + cut, size / 2, cut, COLOR_BOARD),
        },
    ]
}

/// The rectangles of pac-man.
pub fn draw_pacman(point: Point, dir: Direction, layout: Layout) -> (r: Vec<Rect>)
    requires
        layout_ok(layout),
        in_map(point),
    ensures
        r@ == pacman_rects(point, dir, layout),
{
    let (x, y) = cell_origin(point, layout);
    let inset = if layout.cell / 8 >= 1 {
        layout.cell / 8
    } else {
        1
    };
    let size = layout.cell.saturating_sub(inset * 2);
    let body_x = x + inset;
    let body_y = y + inset;
    let cut = if size / 3 >= 2 {
        size / 3
    } else {
        2
    };
    let mut v: Vec<Rect> = Vec::new();
    v.push(Rect { x: body_x, y: body_y, w: size, h: size, color: COLOR_PACMAN });
    let mouth = match dir {
        Direction::Up => Rect { x: body_x + cut, y: body_y, w: cut, h: size / 2, color: COLOR_BOARD },
        Direction::Left => Rect { x: body_x, y: body_y + cut, w: size / 2, h: cut, color: COLOR_BOARD },
        Direction::Down => Rect { x: body_x + cut, y: body_y + size / 2, w: cut, h: size / 2, color: COLOR_BOARD },
        Direction::Right => Rect { x: body_x + size / 2, y: body_y + cut, w: size / 2, h: cut, color: COLOR_BOARD },
    };
    v.push(mouth);
    assert(v@ =~= pacman_rects(point, dir, layout));
    v
}

/// A ghost: a square inset in its cell, with two eyes when it is large enough.
pub open spec fn ghost_rects(p: Point, l: Layout, color: u32) -> Seq<Rect> {
    let inset = max_of(1, (l.cell / 8) as int);
    let size = sat_sub(l.cell as int, inset * 2);
    let bx = origin_of(p, l).0 + inset;
    let by = origin_of(p, l).1 + inset;
    let eye = max_of(1, size / 6);
    seq![rect(bx, by, size, size, color)] + if size >= 8 {
        seq![rect(bx + size / 4, by + size / 4, eye, eye, COLOR_EYE), rect(bx + size / 2, by + size / 4, eye, eye, COLOR_EYE)]
    } else {
        seq![]
    }
}

/// The rectangles of a ghost.
pub fn draw_ghost(point: Point, layout: Layout, color: u32) -> (r: Vec<Rect>)
    requires
        layout_ok(layout),
        in_map(point),
    ensures
        r@ == ghost_rects(point, layout, color),
{
    let (x, y) = cell_origin(point, layout);
    let inset = if layout.cell / 8 >= 1 {
        layout.cell / 8
    } else {
        1
    };
    let size = layout.cell.saturating_sub(inset * 2);
    let body_x = x + inset;
    let body_y = y + inset;
    let mut v: Vec<Rect> = Vec::new();
    v.push(Rect { x: body_x, y: body_y, w: size, h: size, color });
    let eye = if size / 6 >= 1 {
        size / 6
    } else {
        1
    };
    if size >= 8 {
        v.push(Rect { x: body_x + size / 4, y: body_y + size / 4, w: eye, h: eye, color: COLOR_EYE });
        v.push(Rect { x: body_x + size / 2, y: body_y + size / 4, w: eye, h: eye, color: COLOR_EYE });
    }
    assert(v@ =~= ghost_rects(point, layout, color));
    v
}

/// The life icons in the score bar, left to right, each with a mouth.
pub open spec fn lives_rects(lives: int, l: Layout) -> Seq<Rect>
    decreases lives,
{
    if lives <= 0 {
        seq![]
    } else {
        let icon = max_of(6, (l.cell / 2) as int);
        let y = max_of(4, sat_sub(HUD_HEIGHT as int, icon) / 2);
        let x = 8 + (lives - 1) * (icon + 6);
        let mouth = max_of(2, icon / 3);
        lives_rects(lives - 1, l) + seq![
            rect(x, y, icon, icon, COLOR_PACMAN),
            rect(x + icon / 2, y + icon / 3, mouth, mouth, COLOR_HUD),
        ]
    }
}

/// The rectangles of the life icons.
pub fn draw_lives(lives: usize, layout: Layout) -> (r: Vec<Rect>)
    requires
        layout_ok(layout),
        lives <= 3,
    ensures
        r@ == lives_rects(lives as int, layout),
{
    let icon = if layout.cell / 2 >= 6 {
        layout.cell / 2
    } else {
        6
    };
    let half = HUD_HEIGHT.saturating_sub(icon) / 2;
    let y = if half >= 4 {
        half
    } else {
        4
    };
    let mouth = if icon / 3 >= 2 {
        icon / 3
    } else {
        2
    };
    let mut v: Vec<Rect> = Vec::new();
    let mut i: usize = 0;
    while i < lives
        invariant
            i <= lives <= 3,
            layout_ok(layout),
            icon == max_of(6, (layout.cell / 2) as int),
            y == max_of(4, sat_sub(HUD_HEIGHT as int, icon as int) / 2),
            mouth == max_of(2, (icon / 3) as int),
            v@ == lives_rects(i as int, layout),
        decreases lives - i,
    {
        let x = 8 + i * (icon + 6);
        v.push(Rect { x, y, w: icon, h: icon, color: COLOR_PACMAN });
        v.push(Rect { x: x + icon / 2, y: y + icon / 3, w: mouth, h: mouth, color: COLOR_HUD });
        i = i + 1;
        assert(v@ =~= lives_rects(i as int, layout));
    }
    v
}

/// The banner across the maze that shows the phase (none while running).
pub open spec fn phase_banner(phase: Phase, l: Layout) -> Seq<Rect> {
    let banner_w = max_of(l.cell * 6, (l.board_width / 3) as int);
    let banner_h = max_of(l.cell as int, 10);
    let x = l.board_left + sat_sub(l.board_width as int, banner_w) / 2;
    let y = l.board_top + sat_sub(l.board_height as int, banner_h) / 2;
    match phase {
        Phase::Running => seq![],
        Phase::Paused => seq![rect(x, y, banner_w, banner_h, COLOR_PAUSED)],
        Phase::LifeLost => seq![rect(x, y, banner_w, banner_h, COLOR_LIFE_LOST)],
        Phase::Victory => seq![rect(x, y, banner_w, banner_h, COLOR_VICTORY)],
        Phase::GameOver => seq![rect(x, y, banner_w, banner_h, COLOR_GAME_OVER)],
    }
}

/// The rectangles of the phase banner.
pub fn draw_phase_overlay(phase: Phase, layout: Layout) -> (r: Vec<Rect>)
    requires
        layout_ok(layout),
    ensures
        r@ == phase_banner(phase, layout),
{
    let mut v: Vec<Rect> = Vec::new();
    let color = match phase {
        Phase::Running => {
            return v;
        },
        Phase::Paused => COLOR_PAUSED,
        Phase::LifeLost => COLOR_LIFE_LOST,
        Phase::Victory => COLOR_VICTORY,
        Phase::GameOver => COLOR_GAME_OVER,
    };
    let wide = layout.cell * 6;
    let banner_w = if wide >= layout.board_width / 3 {
        wide
    } else {
        layout.board_width / 3
    };
    let banner_h = if layout.cell >= 10 {
        layout.cell
    } else {
        10
    };
    let x = layout.board_left + layout.board_width.saturating_sub(banner_w) / 2;
    let y = layout.board_top + layout.board_height.saturating_sub(banner_h) / 2;
    v.push(Rect { x, y, w: banner_w, h: banner_h, color });
    assert(v@ =~= phase_banner(phase, layout));
    v
}

/// What cell `i` shows: a wall square, a dot, or nothing.
pub open spec fn tile_rects_at(v: PacView, l: Layout, i: int) -> Seq<Rect> {
    let p = point_of(i);
    if v.tiles[i] == TILE_WALL {
        seq![cell_square(p, l, COLOR_WALL)]
    } else if v.tiles[i] == TILE_DOT {
        seq![dot_square(p, l)]
    } else {
        seq![]
    }
}

/// What the first `n` cells show, row by row.
pub open spec fn tiles_rects(v: PacView, l: Layout, n: int) -> Seq<Rect>
    decreases n,
{
    if n <= 0 {
        seq![]
    } else {
        tiles_rects(v, l, n - 1) + tile_rects_at(v, l, n - 1)
    }
}

/// The rectangles of a frame, in drawing order: background, score bar,
/// maze border and board, the cells, pac-man, the ghosts, the lives and
/// the phase banner.
pub open spec fn scene(v: PacView, l: Layout) -> Seq<Rect> {
    seq![
        rect(0, 0, l.width as int, l.height as int, COLOR_BG),
        rect(0, 0, l.width as int, HUD_HEIGHT as int, COLOR_HUD),
        rect(sat_sub(l.board_left as int, 2), sat_sub(l.board_top as int, 2), l.board_width + 4, l.board_height + 4, COLOR_BORDER),
        rect(l.board_left as int, l.board_top as int, l.board_width as int, l.board_height as int, COLOR_BOARD),
    ] + tiles_rects(v, l, MAP_CELLS as int) + pacman_rects(v.pacman, v.current_dir, l) + ghost_rects(
        v.ghosts[0].pos,
        l,
        COLOR_GHOST_0,
    ) + ghost_rects(v.ghosts[1].pos, l, COLOR_GHOST_1) + lives_rects(v.lives as int, l) + phase_banner(v.phase, l)
}

/// The rectangles one frame of the game is drawn with.
pub fn render(game: &Game, layout: Layout) -> (r: Vec<Rect>)
    requires
        pac_wf(game@),
        layout_ok(layout),
    ensures
        r@ == scene(game@, layout),
{
    let mut v: Vec<Rect> = Vec::new();
    v.push(Rect { x: 0, y: 0, w: layout.width, h: layout.height, color: COLOR_BG });
    v.push(Rect { x: 0, y: 0, w: layout.width, h: HUD_HEIGHT, color: COLOR_HUD });
    v.push(
        Rect {
            x: layout.board_left.saturating_sub(2),
            y: layout.board_top.saturating_sub(2),
            w: layout.board_width + 4,
            h: layout.board_height + 4,
            color: COLOR_BORDER,
        },
    );
    v.push(
        Rect {
            x: layout.board_left,
            y: layout.board_top,
            w: layout.board_width,
            h: layout.board_height,
            color: COLOR_BOARD,
        },
    );
    let ghost head = v@;
    let mut i: usize = 0;
    while i < MAP_CELLS
        invariant
            i <= MAP_CELLS,
            pac_wf(game@),
            layout_ok(layout),
            v@ == head + tiles_rects(game@, layout, i as int),
        decreases MAP_CELLS - i,
    {
        let point = Point { x: (i % MAP_W) as u8, y: (i / MAP_W) as u8 };
        assert(point == point_of(i as int));
        let tile = game.tiles[i];
        if tile == TILE_WALL {
            v.push(draw_cell(point, layout, COLOR_WALL));
        } else if tile == TILE_DOT {
            v.push(draw_dot(point, layout));
        }
        i = i + 1;
        assert(v@ =~= head + tiles_rects(game@, layout, i as int));
    }
    let mut pac = draw_pacman(game.pacman, game.current_dir, layout);
    v.append(&mut pac);
    let mut g0 = draw_ghost(game.ghosts[0].pos, layout, COLOR_GHOST_0);
    v.append(&mut g0);
    let mut g1 = draw_ghost(game.ghosts[1].pos, layout, COLOR_GHOST_1);
    v.append(&mut g1);
    let mut lives = draw_lives(game.lives as usize, layout);
    v.append(&mut lives);
    let mut banner = draw_phase_overlay(game.phase, layout);
    v.append(&mut banner);
    assert(v@ =~= scene(game@, layout));
    v
}

} // verus!
