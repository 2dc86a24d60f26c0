//! The snake game of the frame-buffer demo: a 20 by 20 board, a snake that
//! moves one cell per tick and grows by eating food, the keys that steer it,
//! and the rectangles a frame of the game is drawn with.
use vstd::prelude::*;
use crate::gfx::{rect, Rect};

verus! {

/// Cells along each side of the board.
pub const BOARD_SIZE: usize = 20;
/// Cells on the board.
pub const BOARD_CAPACITY: usize = 400;
/// Pixels along each side of a cell.
pub const CELL_SIZE: usize = 10;
/// Pixels along each side of the board.
pub const BOARD_PIXELS: usize = 200;
/// Pixels of the frame around the board.
pub const BORDER: usize = 2;

pub const COLOR_BG: u32 = 0xff00_0000;
pub const COLOR_BOARD: u32 = 0xffff_ffff;
pub const COLOR_BORDER: u32 = 0xffff_d600;
pub const COLOR_HEAD: u32 = 0xffff_0000;
pub const COLOR_BODY: u32 = 0xff00_ff00;
pub const COLOR_FOOD: u32 = 0xffff_00ff;

/// A cell of the board.
#[derive(Clone, Copy, PartialEq, Eq, Structural, Debug)]
pub struct Point {
    pub x: u8,
    pub y: u8,
}

/// Where the snake heads.
#[derive(Clone, Copy, PartialEq, Eq, Structural, Debug)]
pub enum Direction {
    Up,
    Down,
    Left,
    Right,
}

/// `a` and `b` point opposite ways.
pub open spec fn opposite(a: Direction, b: Direction) -> bool {
    ||| (a == Direction::Up && b == Direction::Down)
    ||| (a == Direction::Down && b == Direction::Up)
    ||| (a == Direction::Left && b == Direction::Right)
    ||| (a == Direction::Right && b == Direction::Left)
}

impl Direction {
    /// Whether `next` points the opposite way.
    pub fn is_opposite(self, next: Self) -> (r: bool)
        ensures
            r == opposite(self, next),
    {
        match (self, next) {
            (Direction::Up, Direction::Down) => true,
            (Direction::Down, Direction::Up) => true,
            (Direction::Left, Direction::Right) => true,
            (Direction::Right, Direction::Left) => true,
            _ => false,
        }
    }
}

/// The next random number after `seed` (a linear congruential step).
#[verifier::opaque]
pub open spec fn lcg_next(seed: u32) -> u32 {
    seed.wrapping_mul(1_664_525).wrapping_add(1_013_904_223)
}

/// The cell a head at `p` moves to, or none when it would leave the board.
pub open spec fn step(p: Point, dir: Direction) -> Option<Point> {
    match dir {
        Direction::Up => if p.y == 0 {
            None
        } else {
            Some(Point { x: p.x, y: (p.y - 1) as u8 })
        },
        Direction::Down => if p.y + 1 >= BOARD_SIZE {
            None
        } else {
            Some(Point { x: p.x, y: (p.y + 1) as u8 })
        },
        Direction::Left => if p.x == 0 {
            None
        } else {
            Some(Point { x: (p.x - 1) as u8, y: p.y })
        },
        Direction::Right => if p.x + 1 >= BOARD_SIZE {
            None
        } else {
            Some(Point { x: (p.x + 1) as u8, y: p.y })
        },
    }
}

/// The cell with index `idx`, row by row.
pub open spec fn cell_of(idx: int) -> Point {
    Point { x: (idx % 20) as u8, y: (idx / 20) as u8 }
}

/// The top left cell.
pub open spec fn origin() -> Point {
    Point { x: 0, y: 0 }
}

/// The snake a round starts with: three cells in the middle row, head at the centre.
pub open spec fn start_body() -> Seq<Point> {
    seq![Point { x: 10, y: 10 }, Point { x: 9, y: 10 }, Point { x: 8, y: 10 }]
}

/// The cell lies on the board.
pub open spec fn on_board(p: Point) -> bool {
    p.x < BOARD_SIZE && p.y < BOARD_SIZE
}

/// The first `n` cells of `body` hold `p`.
pub open spec fn occupies(body: Seq<Point>, n: int, p: Point) -> bool {
    exists|i: int| 0 <= i < n && body[i] == p
}

/// The `k`-th cell a scan from cell `start` visits, wrapping around.
pub open spec fn scan_cell(start: int, k: int) -> Point {
    cell_of((start + k) % 400)
}

/// Where food goes: the first free cell scanning from `start` around the
/// board, if any.
pub open spec fn food_spot(body: Seq<Point>, len: int, start: int, k: int) -> bool {
    &&& 0 <= k < BOARD_CAPACITY
    &&& !occupies(body, len, scan_cell(start, k))
    &&& forall|j: int| 0 <= j < k ==> occupies(body, len, #[trigger] scan_cell(start, j))
}

/// What placing food from scan start `start` does: with a free cell, the
/// food goes on the first one found and the game goes on as it was;
/// without, the game ends and the food stays.
#[verifier::opaque]
pub open spec fn food_placed(
    body: Seq<Point>,
    len: int,
    start: int,
    food_before: Point,
    alive_before: bool,
    food: Point,
    alive: bool,
) -> bool {
    if exists|k: int| food_spot(body, len, start, k) {
        &&& alive == alive_before
        &&& exists|k: int| food_spot(body, len, start, k) && food == scan_cell(start, k)
    } else {
        &&& !alive
        &&& food == food_before
    }
}

/// Sets every cell to the top left one.
fn zero_cells(body: &mut Vec<Point>)
    ensures
        final(body)@.len() == old(body)@.len(),
        forall|k: int| 0 <= k < old(body)@.len() ==> #[trigger] final(body)@[k] == origin(),
{
    let mut i: usize = 0;
    while i < body.len()
        invariant
            i <= body@.len(),
            body@.len() == old(body)@.len(),
            forall|k: int| 0 <= k < i ==> #[trigger] body@[k] == origin(),
        decreases body.len() - i,
    {
        body.set(i, Point { x: 0, y: 0 });
        i = i + 1;
    }
}

/// The cells after the head moves to `next`: `next` first, then the
/// first `new_len - 1` old cells, the rest as they were.
pub open spec fn shifted(body: Seq<Point>, next: Point, new_len: int) -> Seq<Point> {
    Seq::new(body.len(), |k: int| if k == 0 { next } else if k < new_len { body[k - 1] } else { body[k] })
}

/// One tick of the snake: the cell ahead of the head (if on the board),
/// a run into the snake or off the board, growth on food, the new food.
pub open spec fn advanced(pre: SnakeGame, post: SnakeGame) -> bool {
    &&& post.dir == pre.dir
    &&& !pre.alive ==> post.body@ == pre.body@ && post.len == pre.len && post.food == pre.food
        && !post.alive && post.score == pre.score && post.seed == pre.seed
    &&& pre.alive ==> match step(pre.body@[0], pre.dir) {
        None => !post.alive && post.body@ == pre.body@ && post.len == pre.len && post.food == pre.food
            && post.score == pre.score && post.seed == pre.seed,
        Some(next) => {
            let grow = next == pre.food;
            let cl = if grow { pre.len as int } else { pre.len - 1 };
            let nl = if grow { pre.len + 1 } else { pre.len as int };
            if occupies(pre.body@, cl, next) {
                &&& !post.alive
                &&& post.body@ == pre.body@
                &&& post.len == pre.len
                &&& post.food == pre.food
                &&& post.score == pre.score
                &&& post.seed == pre.seed
            } else {
                &&& post.body@ == shifted(pre.body@, next, nl)
                &&& post.len == nl
                &&& !grow ==> post.alive && post.food == pre.food && post.score == pre.score
                    && post.seed == pre.seed
                &&& grow ==> post.score == pre.score + 1
                &&& (grow && nl == BOARD_CAPACITY) ==> !post.alive && post.food == pre.food
                    && post.seed == pre.seed
                &&& (grow && nl < BOARD_CAPACITY) ==> post.seed == lcg_next(pre.seed) && food_placed(
                    post.body@,
                    nl,
                    (lcg_next(pre.seed) % 400) as int,
                    pre.food,
                    true,
                    post.food,
                    post.alive,
                )
            }
        },
    }
}

/// The snake does not cross itself and the food lies off it.
pub open spec fn sound(g: SnakeGame) -> bool {
    &&& forall|i: int, j: int| 0 <= i < j < g.len ==> #[trigger] g.body@[i] != #[trigger] g.body@[j]
    &&& !occupies(g.body@, g.len as int, g.food)
}

/// Every tick keeps the snake on the board and from crossing itself, and
/// grows it by at most one cell; the food stays off the snake while the
/// game goes on, and after any tick that did not grow the snake.
pub proof fn lemma_advance_keeps_sound(pre: SnakeGame, post: SnakeGame)
    requires
        pre.wf(),
        sound(pre),
        advanced(pre, post),
    ensures
        forall|i: int, j: int| 0 <= i < j < post.len ==> #[trigger] post.body@[i] != #[trigger] post.body@[j],
        forall|i: int| 0 <= i < post.len ==> on_board(#[trigger] post.body@[i]),
        post.len == pre.len || post.len == pre.len + 1,
        post.alive || post.len == pre.len ==> sound(post),
{
    if pre.alive {
        if let Some(next) = step(pre.body@[0], pre.dir) {
            let grow = next == pre.food;
            let cl = if grow { pre.len as int } else { pre.len - 1 };
            let nl = if grow { pre.len + 1 } else { pre.len as int };
            if !occupies(pre.body@, cl, next) {
                let b = pre.body@;
                let nb = post.body@;
                assert(nb == shifted(b, next, nl));
                assert forall|i: int, j: int| 0 <= i < j < post.len implies #[trigger] nb[i] != #[trigger] nb[j] by {
                    if i == 0 {
                        assert(nb[j] == b[j - 1]);
                        if nb[j] == next {
                            assert(occupies(b, cl, next));
                        }
                    } else {
                        assert(nb[i] == b[i - 1] && nb[j] == b[j - 1]);
                    }
                }
                assert forall|i: int| 0 <= i < post.len implies on_board(#[trigger] nb[i]) by {
                    if i > 0 {
                        assert(nb[i] == b[i - 1]);
                    }
                }
                if grow && !post.alive {
                } else if grow {
                    reveal(food_placed);
                    let start = (lcg_next(pre.seed) % 400) as int;
                    let k = choose|k: int| food_spot(nb, nl, start, k) && post.food == scan_cell(start, k);
                    assert(!occupies(nb, nl, post.food));
                } else {
                    assert(!occupies(nb, post.len as int, post.food)) by {
                        if occupies(nb, post.len as int, post.food) {
                            let i = choose|i: int| 0 <= i < post.len && nb[i] == post.food;
                            if i > 0 {
                                assert(nb[i] == b[i - 1]);
                                assert(occupies(b, pre.len as int, pre.food));
                            }
                        }
                    }
                }
            }
        }
    }
}

/// A new round starts sound when food could be placed.
pub proof fn lemma_reset_sound(g: SnakeGame, start: int, food_before: Point)
    requires
        g.wf(),
        g.len == 3,
        g.body@.take(3) == start_body(),
        g.alive,
        food_placed(g.body@, 3, start, food_before, true, g.food, g.alive),
    ensures
        sound(g),
{
    reveal(food_placed);
    assert(g.body@[0] == g.body@.take(3)[0] && g.body@[1] == g.body@.take(3)[1] && g.body@[2] == g.body@.take(3)[2]);
    let k = choose|k: int| food_spot(g.body@, 3, start, k) && g.food == scan_cell(start, k);
}

/// The game.
pub struct SnakeGame {
    /// The snake's cells, head first; only the first `len` count.
    pub body: Vec<Point>,
    pub len: usize,
    pub dir: Direction,
    pub food: Point,
    pub alive: bool,
    pub score: usize,
    pub seed: u32,
}

impl SnakeGame {
    pub open spec fn wf(&self) -> bool {
        &&& self.body@.len() == BOARD_CAPACITY
        &&& self.len <= BOARD_CAPACITY
        &&& forall|i: int| 0 <= i < BOARD_CAPACITY ==> on_board(#[trigger] self.body@[i])
        &&& on_board(self.food)
        &&& self.alive ==> self.len < BOARD_CAPACITY
    }

    /// A new game, set up as `reset(seed)` sets it up.
    pub fn new(seed: u32) -> (r: SnakeGame)
        ensures
            r.wf(),
            r.len == 3,
            r.dir == Direction::Right,
            r.score == 0,
            r.body@.take(3) == start_body(),
            forall|i: int| 3 <= i < BOARD_CAPACITY ==> #[trigger] r.body@[i] == origin(),
            r.seed == lcg_next(seed.wrapping_add(0x9e37_79b9)),
            food_placed(
                r.body@,
                3,
                (lcg_next(seed.wrapping_add(0x9e37_79b9)) % 400) as int,
                origin(),
                true,
                r.food,
                r.alive,
            ),
    {
        let mut body: Vec<Point> = Vec::new();
        let mut i: usize = 0;
        while i < BOARD_CAPACITY
            invariant
                i <= BOARD_CAPACITY,
                body@.len() == i,
                forall|k: int| 0 <= k < i ==> #[trigger] body@[k] == origin(),
            decreases BOARD_CAPACITY - i,
        {
            body.push(Point { x: 0, y: 0 });
            i = i + 1;
        }
        let mut game = SnakeGame {
            body,
            len: 0,
            dir: Direction::Right,
            food: Point { x: 0, y: 0 },
            alive: true,
            score: 0,
            seed,
        };
        game.reset(seed);
        game
    }

    /// A fresh round: a snake of three cells in the middle heading right,
    /// score 0, a new seed drawn from `seed`, and food placed.
    pub fn reset(&mut self, seed: u32)
        requires
            old(self).body@.len() == BOARD_CAPACITY,
            on_board(old(self).food),
        ensures
            final(self).wf(),
            final(self).len == 3,
            final(self).dir == Direction::Right,
            final(self).score == 0,
            final(self).body@.take(3) == start_body(),
            forall|i: int| 3 <= i < BOARD_CAPACITY ==> #[trigger] final(self).body@[i] == origin(),
            final(self).seed == lcg_next(seed.wrapping_add(0x9e37_79b9)),
            food_placed(
                final(self).body@,
                3,
                (lcg_next(seed.wrapping_add(0x9e37_79b9)) % 400) as int,
                old(self).food,
                true,
                final(self).food,
                final(self).alive,
            ),
    {
        zero_cells(&mut self.body);
        self.len = 3;
        self.dir = Direction::Right;
        self.alive = true;
        self.score = 0;
        self.seed = seed.wrapping_add(0x9e37_79b9);
        let center: u8 = 10;
        self.body.set(0, Point { x: center, y: center });
        self.body.set(1, Point { x: center - 1, y: center });
        self.body.set(2, Point { x: center - 2, y: center });
        proof {
            assert(self.body@.take(3) =~= start_body());
        }
        let ghost before = self.body@;
        self.place_food();
        proof {
            assert forall|i: int| 0 <= i < self.len implies on_board(#[trigger] self.body@[i]) by {
                assert(self.body@[i] == start_body()[i]);
            }
        }
    }

    /// Advances the seed and gives a number below `limit`.
    pub fn random(&mut self, limit: u32) -> (r: u32)
        requires
            limit > 0,
        ensures
            final(self).seed == lcg_next(old(self).seed),
            r == lcg_next(old(self).seed) % limit,
            final(self).body@ == old(self).body@,
            final(self).len == old(self).len,
            final(self).dir == old(self).dir,
            final(self).food == old(self).food,
            final(self).alive == old(self).alive,
            final(self).score == old(self).score,
    {
        proof {
            reveal(lcg_next);
        }
        self.seed = self.seed.wrapping_mul(1_664_525).wrapping_add(1_013_904_223);
        self.seed % limit
    }

    /// Puts the food on the first free cell from a random start, scanning
    /// row by row around the board; with no free cell the game ends.
    pub fn place_food(&mut self)
        requires
            old(self).body@.len() == BOARD_CAPACITY,
            old(self).len <= BOARD_CAPACITY,
        ensures
            final(self).seed == lcg_next(old(self).seed),
            final(self).body@ == old(self).body@,
            final(self).len == old(self).len,
            final(self).dir == old(self).dir,
            final(self).score == old(self).score,
            on_board(final(self).food) || final(self).food == old(self).food,
            food_placed(
                old(self).body@,
                old(self).len as int,
                (lcg_next(old(self).seed) % 400) as int,
                old(self).food,
                old(self).alive,
                final(self).food,
                final(self).alive,
            ),
    {
        proof {
            reveal(food_placed);
        }
        let start = self.random(400) as usize;
        let mut offset: usize = 0;
        while offset < BOARD_CAPACITY
            invariant
                offset <= BOARD_CAPACITY,
                start < 400,
                start == lcg_next(old(self).seed) % 400,
                self.seed == lcg_next(old(self).seed),
                self.body@ == old(self).body@,
                self.len == old(self).len,
                self.dir == old(self).dir,
                self.food == old(self).food,
                self.alive == old(self).alive,
                self.score == old(self).score,
                self.body@.len() == BOARD_CAPACITY,
                self.len <= BOARD_CAPACITY,
                forall|j: int| 0 <= j < offset ==> occupies(self.body@, self.len as int, #[trigger] scan_cell(start as int, j)),
            decreases BOARD_CAPACITY - offset,
        {
            let idx = (start + offset) % BOARD_CAPACITY;
            let candidate = Point { x: (idx % BOARD_SIZE) as u8, y: (idx / BOARD_SIZE) as u8 };
            assert(candidate == scan_cell(start as int, offset as int));
            if !self.occupied(self.len, candidate) {
                self.food = candidate;
                proof {
                    reveal(food_placed);
                    assert(food_spot(old(self).body@, old(self).len as int, start as int, offset as int));
                    assert(self.food == scan_cell(start as int, offset as int));
                    assert(on_board(candidate));
                }
                return;
            }
            offset = offset + 1;
        }
        self.alive = false;
        proof {
            assert forall|k: int| !food_spot(old(self).body@, old(self).len as int, start as int, k) by {
                if 0 <= k < 400 {
                    assert(occupies(self.body@, self.len as int, scan_cell(start as int, k)));
                }
            }
        }
    }

    /// Whether one of the first `n` cells of the snake is `p`.
    pub fn occupied(&self, n: usize, p: Point) -> (r: bool)
        requires
            n <= self.body@.len(),
        ensures
            r == occupies(self.body@, n as int, p),
    {
        let mut i: usize = 0;
        while i < n
            invariant
                i <= n <= self.body@.len(),
                forall|j: int| 0 <= j < i ==> #[trigger] self.body@[j] != p,
            decreases n - i,
        {
            if self.body[i] == p {
                return true;
            }
            i = i + 1;
        }
        false
    }

    /// Moves the snake one cell. Leaving the board or running into itself
    /// (its tail cell excepted unless it grows) ends the game; eating the
    /// food grows it by one cell, scores a point and places new food (a
    /// snake that fills the board ends the game).
    pub fn advance(&mut self)
        requires
            old(self).wf(),
            old(self).score < usize::MAX,
        ensures
            final(self).wf(),
            advanced(*old(self), *final(self)),
    {
        if !self.alive {
            return;
        }
        let head = self.body[0];
        let next = match self.dir {
            Direction::Up => {
                if head.y == 0 {
                    self.alive = false;
                    return;
                }
                Point { x: head.x, y: head.y - 1 }
            },
            Direction::Down => {
                if head.y + 1 >= 20 {
                    self.alive = false;
                    return;
                }
                Point { x: head.x, y: head.y + 1 }
            },
            Direction::Left => {
                if head.x == 0 {
                    self.alive = false;
                    return;
                }
                Point { x: head.x - 1, y: head.y }
            },
            Direction::Right => {
                if head.x + 1 >= 20 {
                    self.alive = false;
                    return;
                }
                Point { x: head.x + 1, y: head.y }
            },
        };
        assert(step(head, self.dir) == Some(next));
        let grow = next == self.food;
        let collision_len = if grow {
            self.len
        } else if self.len > 0 {
            self.len - 1
        } else {
            0
        };
        if self.occupied(collision_len, next) {
            self.alive = false;
            return;
        }
        let new_len = if grow {
            self.len + 1
        } else {
            self.len
        };
        let ghost orig = self.body@;
        let ghost pre = *self;
        let mut idx = if new_len > 0 {
            new_len - 1
        } else {
            0
        };
        while idx > 0
            invariant
                0 <= idx <= new_len <= BOARD_CAPACITY,
                idx == 0 || idx < new_len,
                self.len == pre.len,
                self.score == pre.score,
                self.food == pre.food,
                self.alive == pre.alive,
                self.seed == pre.seed,
                self.dir == pre.dir,
                pre.wf(),
                new_len == if next == pre.food { pre.len + 1 } else { pre.len as int },
                self.body@.len() == BOARD_CAPACITY,
                orig.len() == BOARD_CAPACITY,
                forall|k: int| 0 <= k <= idx ==> #[trigger] self.body@[k] == orig[k],
                forall|k: int| idx < k < new_len ==> #[trigger] self.body@[k] == orig[k - 1],
                forall|k: int| new_len <= k < BOARD_CAPACITY ==> #[trigger] self.body@[k] == orig[k],
            decreases idx,
        {
            let prev = self.body[idx - 1];
            self.body.set(idx, prev);
            idx = idx - 1;
        }
        self.body.set(0, next);
        self.len = new_len;
        assert(self.body@ =~= shifted(orig, next, new_len as int));
        proof {
            assert forall|i: int| 0 <= i < self.len implies on_board(#[trigger] self.body@[i]) by {
                if i > 0 {
                    assert(self.body@[i] == orig[i - 1]);
                }
            }
        }
        if grow {
            self.score = self.score + 1;
            if self.len == BOARD_CAPACITY {
                self.alive = false;
            } else {
                self.place_food();
            }
        }
    }

}

/// What the keys read in one poll ask for.
#[derive(Clone, Copy, PartialEq, Eq, Structural, Debug)]
pub enum InputAction {
    /// Nothing.
    Nothing,
    /// Leave the game.
    Quit,
    /// Start a new round (only after the snake died).
    Restart,
    /// Head the given way from the next tick on.
    Turn(Direction),
}

/// Takes `next` as the new heading unless it reverses the heading chosen
/// so far in this poll (or, if none was, the current one).
pub fn update_dir(slot: &mut Option<Direction>, current: Direction, next: Direction)
    ensures
        ({
            let active = match *old(slot) {
                Some(d) => d,
                None => current,
            };
            *final(slot) == if opposite(active, next) {
                *old(slot)
            } else {
                Some(next)
            }
        }),
{
    let active = match *slot {
        Some(d) => d,
        None => current,
    };
    if !active.is_opposite(next) {
        *slot = Some(next);
    }
}

/// The heading a key asks for: w, s, a, d (either case) for up, down, left, right.
pub open spec fn key_dir(ch: u8) -> Option<Direction> {
    if ch == 0x77 || ch == 0x57 {
        Some(Direction::Up)
    } else if ch == 0x73 || ch == 0x53 {
        Some(Direction::Down)
    } else if ch == 0x61 || ch == 0x41 {
        Some(Direction::Left)
    } else if ch == 0x64 || ch == 0x44 {
        Some(Direction::Right)
    } else {
        None
    }
}

/// Reads one key of a poll: a heading key updates the heading chosen so
/// far; q ends the poll with `Quit`, r (after death) with `Restart`; other
/// keys are ignored. Gives the action that ends the poll, if this key does.
pub fn scan_key(slot: &mut Option<Direction>, current: Direction, alive: bool, ch: u8) -> (r: Option<InputAction>)
    ensures
        ch == 0x71 || ch == 0x51 ==> r == Some(InputAction::Quit) && *final(slot) == *old(slot),
        (ch == 0x72 || ch == 0x52) && !alive ==> r == Some(InputAction::Restart) && *final(slot) == *old(slot),
        (ch == 0x72 || ch == 0x52) && alive ==> r is None && *final(slot) == *old(slot),
        key_dir(ch) is Some ==> r is None && *final(slot) == ({
            let active = match *old(slot) {
                Some(d) => d,
                None => current,
            };
            if opposite(active, key_dir(ch)->0) {
                *old(slot)
            } else {
                key_dir(ch)
            }
        }),
        key_dir(ch) is None && !(ch == 0x71 || ch == 0x51 || ch == 0x72 || ch == 0x52) ==> r is None && *final(slot) == *old(slot),
{
    if ch == 0x77 || ch == 0x57 {
        update_dir(slot, current, Direction::Up);
        None
    } else if ch == 0x73 || ch == 0x53 {
        update_dir(slot, current, Direction::Down);
        None
    } else if ch == 0x61 || ch == 0x41 {
        update_dir(slot, current, Direction::Left);
        None
    } else if ch == 0x64 || ch == 0x44 {
        update_dir(slot, current, Direction::Right);
        None
    } else if ch == 0x71 || ch == 0x51 {
        Some(InputAction::Quit)
    } else if (ch == 0x72 || ch == 0x52) && !alive {
        Some(InputAction::Restart)
    } else {
        None
    }
}

/// What a poll that read every pending key without stopping asks for.
pub fn poll_result(slot: Option<Direction>) -> (r: InputAction)
    ensures
        r == match slot {
            Some(d) => InputAction::Turn(d),
            None => InputAction::Nothing,
        },
{
    match slot {
        Some(d) => InputAction::Turn(d),
        None => InputAction::Nothing,
    }
}

/// Where the board's top left pixel goes: centred on the screen.
pub fn board_origin(width: usize, height: usize) -> (r: (usize, usize))
    ensures
        r.0 == (if width >= BOARD_PIXELS { width - BOARD_PIXELS } else { 0 }) / 2,
        r.1 == (if height >= BOARD_PIXELS { height - BOARD_PIXELS } else { 0 }) / 2,
{
    (width.saturating_sub(BOARD_PIXELS) / 2, height.saturating_sub(BOARD_PIXELS) / 2)
}

/// The square of cell `p` on a board whose top left pixel is `(left, top)`.
pub open spec fn cell_rect(p: Point, left: int, top: int, color: u32) -> Rect {
    rect(left + p.x * CELL_SIZE, top + p.y * CELL_SIZE, CELL_SIZE as int, CELL_SIZE as int, color)
}

/// The rectangle of one cell.
pub fn draw_cell(point: Point, board_left: usize, board_top: usize, color: u32) -> (r: Rect)
    requires
        on_board(point),
        board_left + BOARD_PIXELS <= usize::MAX,
        board_top + BOARD_PIXELS <= usize::MAX,
    ensures
        r == cell_rect(point, board_left as int, board_top as int, color),
{
    let pixel_y = board_top + point.y as usize * CELL_SIZE;
    let pixel_x = board_left + point.x as usize * CELL_SIZE;
    Rect { x: pixel_x, y: pixel_y, w: CELL_SIZE, h: CELL_SIZE, color }
}

/// The background, the board and its frame's four sides.
pub open spec fn frame_rects(width: int, height: int, left: int, top: int) -> Seq<Rect> {
    let ol = if left >= BORDER { left - BORDER } else { 0 };
    let ot = if top >= BORDER { top - BORDER } else { 0 };
    let outer = BOARD_PIXELS + BORDER * 2;
    seq![
        rect(0, 0, width, height, COLOR_BG),
        rect(left, top, BOARD_PIXELS as int, BOARD_PIXELS as int, COLOR_BOARD),
        rect(ol, ot, outer, BORDER as int, COLOR_BORDER),
        rect(ol, ot + outer - BORDER, outer, BORDER as int, COLOR_BORDER),
        rect(ol, ot, BORDER as int, outer, COLOR_BORDER),
        rect(ol + outer - BORDER, ot, BORDER as int, outer, COLOR_BORDER),
    ]
}

/// The rectangles of a frame, in drawing order: background, board,
/// frame, the snake head first, then the food.
pub open spec fn scene(game: &SnakeGame, width: int, height: int, left: int, top: int) -> Seq<Rect> {
    frame_rects(width, height, left, top) + Seq::new(
        game.len as nat,
        |i: int| cell_rect(game.body@[i], left, top, if i == 0 { COLOR_HEAD } else { COLOR_BODY }),
    ) + seq![cell_rect(game.food, left, top, COLOR_FOOD)]
}

/// The rectangles one frame of the game is drawn with.
pub fn render(game: &SnakeGame, width: usize, height: usize, board_left: usize, board_top: usize) -> (r: Vec<Rect>)
    requires
        game.wf(),
        board_left + BOARD_PIXELS + BORDER <= usize::MAX,
        board_top + BOARD_PIXELS + BORDER <= usize::MAX,
    ensures
        r@ == scene(game, width as int, height as int, board_left as int, board_top as int),
{
    let mut v: Vec<Rect> = Vec::new();
    v.push(Rect { x: 0, y: 0, w: width, h: height, color: COLOR_BG });
    v.push(Rect { x: board_left, y: board_top, w: BOARD_PIXELS, h: BOARD_PIXELS, color: COLOR_BOARD });
    let outer_left = board_left.saturating_sub(BORDER);
    let outer_top = board_top.saturating_sub(BORDER);
    let outer_w = BOARD_PIXELS + BORDER * 2;
    let outer_h = BOARD_PIXELS + BORDER * 2;
    v.push(Rect { x: outer_left, y: outer_top, w: outer_w, h: BORDER, color: COLOR_BORDER });
    v.push(Rect { x: outer_left, y: outer_top + outer_h - BORDER, w: outer_w, h: BORDER, color: COLOR_BORDER });
    v.push(Rect { x: outer_left, y: outer_top, w: BORDER, h: outer_h, color: COLOR_BORDER });
    v.push(Rect { x: outer_left + outer_w - BORDER, y: outer_top, w: BORDER, h: outer_h, color: COLOR_BORDER });
    assert(v@ =~= frame_rects(width as int, height as int, board_left as int, board_top as int));
    let ghost cells = Seq::new(
        game.len as nat,
        |i: int| cell_rect(game.body@[i], board_left as int, board_top as int, if i == 0 { COLOR_HEAD } else { COLOR_BODY }),
    );
    let mut idx: usize = 0;
    while idx < game.len
        invariant
            idx <= game.len,
            game.wf(),
            board_left + BOARD_PIXELS + BORDER <= usize::MAX,
            board_top + BOARD_PIXELS + BORDER <= usize::MAX,
            v@ == frame_rects(width as int, height as int, board_left as int, board_top as int) + cells.take(idx as int),
            cells == Seq::new(
                game.len as nat,
                |i: int| cell_rect(game.body@[i], board_left as int, board_top as int, if i == 0 { COLOR_HEAD } else { COLOR_BODY }),
            ),
        decreases game.len - idx,
    {
        let point = game.body[idx];
        let color = if idx == 0 {
            COLOR_HEAD
        } else {
            COLOR_BODY
        };
        let cell = draw_cell(point, board_left, board_top, color);
        v.push(cell);
        assert(cells.take(idx + 1) =~= cells.take(idx as int).push(cell));
        idx = idx + 1;
    }
    let food = draw_cell(game.food, board_left, board_top, COLOR_FOOD);
    v.push(food);
    assert(cells.take(idx as int) =~= cells);
    assert(v@ =~= scene(game, width as int, height as int, board_left as int, board_top as int));
    v
}

} // verus!
