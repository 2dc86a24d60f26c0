//! The two-player pong game of the scheduling demo: an arena, two paddles,
//! a ball that bounces off walls and paddles, scores up to seven, the keys
//! the players send, and the rectangles a frame is drawn with.
use vstd::prelude::*;
use crate::gfx::{rect, Rect};

verus! {

pub const BORDER: usize = 4;
pub const PADDLE_W: usize = 6;
pub const PADDLE_H: usize = 40;
pub const BALL_SIZE: usize = 6;
pub const PADDLE_SPEED: isize = 6;
pub const BALL_SPEED_X: isize = 4;
pub const BALL_SPEED_Y: isize = 3;
/// Points that win a match.
pub const TARGET_SCORE: u8 = 7;
pub const SCORE_W: usize = 18;
pub const SCORE_H: usize = 28;
pub const SCORE_SEG: usize = 4;
/// The largest screen side the game handles.
pub const MAX_SIDE: usize = 0x1000_0000;

pub const COLOR_BG: u32 = 0xff08_1014;
pub const COLOR_FIELD: u32 = 0xff10_1f23;
pub const COLOR_BORDER: u32 = 0xffff_d600;
pub const COLOR_LEFT: u32 = 0xff2e_cc71;
pub const COLOR_RIGHT: u32 = 0xff39_82ff;
pub const COLOR_BALL: u32 = 0xffff_f5f1;
pub const COLOR_SCORE: u32 = 0xfff8_4f39;

/// The state of a match.
#[derive(Clone, Copy, PartialEq, Eq, Structural, Debug)]
pub struct Game {
    pub width: usize,
    pub height: usize,
    pub arena_left: usize,
    pub arena_top: usize,
    pub arena_right: usize,
    pub arena_bottom: usize,
    pub left_score: u8,
    pub right_score: u8,
    pub left_y: isize,
    pub right_y: isize,
    pub ball_x: isize,
    pub ball_y: isize,
    pub ball_vx: isize,
    pub ball_vy: isize,
    pub finished: bool,
    pub winner_left: bool,
}

/// `a - b`, or 0 when `b` is larger.
pub open spec fn sat_sub(a: int, b: int) -> int {
    if a >= b {
        a - b
    } else {
        0
    }
}

/// `|v|`.
pub open spec fn abs(v: int) -> int {
    if v < 0 {
        -v
    } else {
        v
    }
}

/// `v` held within `lo..=hi`.
pub open spec fn clamp(v: int, lo: int, hi: int) -> int {
    if v < lo {
        lo
    } else if v > hi {
        hi
    } else {
        v
    }
}

/// The serve: paddles and ball centred, the ball heading to the right when
/// `serve_left` (else to the left) and downwards.
pub open spec fn served(g: Game, serve_left: bool) -> Game {
    let center_y = sat_sub(g.arena_top + g.arena_bottom, PADDLE_H as int) / 2;
    Game {
        left_y: center_y as isize,
        right_y: center_y as isize,
        ball_x: (sat_sub(g.arena_left + g.arena_right, BALL_SIZE as int) / 2) as isize,
        ball_y: (sat_sub(g.arena_top + g.arena_bottom, BALL_SIZE as int) / 2) as isize,
        ball_vx: if serve_left { BALL_SPEED_X } else { (-BALL_SPEED_X) as isize },
        ball_vy: BALL_SPEED_Y,
        ..g
    }
}

/// Where the left paddle stands.
pub open spec fn left_x(g: Game) -> int {
    g.arena_left + 10
}

/// Where the right paddle stands.
pub open spec fn right_x(g: Game) -> int {
    sat_sub(g.arena_right as int, 10 + PADDLE_W)
}

/// The ball touches a paddle whose top is at `paddle_y`, vertically.
pub open spec fn overlaps(g: Game, paddle_y: int) -> bool {
    g.ball_y + BALL_SIZE >= paddle_y && g.ball_y <= paddle_y + PADDLE_H
}

/// The ball's vertical speed after it hits a paddle whose top is at
/// `paddle_y`: steeper the farther from the paddle's centre it hits.
pub open spec fn deflected_vy(g: Game, paddle_y: int) -> int {
    let relative = (g.ball_y + BALL_SIZE / 2) - (paddle_y + PADDLE_H / 2);
    if relative <= -14 {
        -5
    } else if relative <= -5 {
        -3
    } else if relative <= 4 {
        if g.ball_vy >= 0 {
            2
        } else {
            -2
        }
    } else if relative <= 13 {
        3
    } else {
        5
    }
}

/// The ball moved by its speed and bounced off the top and bottom walls.
pub open spec fn moved(g: Game) -> Game {
    let x = g.ball_x + g.ball_vx;
    let y0 = g.ball_y + g.ball_vy;
    let (y1, vy1) = if y0 <= g.arena_top {
        (g.arena_top as int, abs(g.ball_vy as int))
    } else {
        (y0, g.ball_vy as int)
    };
    let bottom = sat_sub(g.arena_bottom as int, BALL_SIZE as int);
    let (y2, vy2) = if y1 >= bottom {
        (bottom, -abs(vy1))
    } else {
        (y1, vy1)
    };
    Game { ball_x: x as isize, ball_y: y2 as isize, ball_vy: vy2 as isize, ..g }
}

/// The ball bounced off the left paddle, if it meets it heading left.
pub open spec fn hit_left(g: Game) -> Game {
    let lx = left_x(g);
    if g.ball_vx < 0 && g.ball_x <= lx + PADDLE_W && g.ball_x + BALL_SIZE >= lx && overlaps(g, g.left_y as int) {
        Game {
            ball_x: (lx + PADDLE_W) as isize,
            ball_vx: abs(g.ball_vx as int) as isize,
            ball_vy: deflected_vy(Game { ball_x: (lx + PADDLE_W) as isize, ball_vx: abs(g.ball_vx as int) as isize, ..g }, g.left_y as int) as isize,
            ..g
        }
    } else {
        g
    }
}

/// The ball bounced off the right paddle, if it meets it heading right.
pub open spec fn hit_right(g: Game) -> Game {
    let rx = right_x(g);
    if g.ball_vx > 0 && g.ball_x + BALL_SIZE >= rx && g.ball_x <= rx + PADDLE_W && overlaps(g, g.right_y as int) {
        Game {
            ball_x: (rx - BALL_SIZE) as isize,
            ball_vx: -abs(g.ball_vx as int) as isize,
            ball_vy: deflected_vy(Game { ball_x: (rx - BALL_SIZE) as isize, ball_vx: -abs(g.ball_vx as int) as isize, ..g }, g.right_y as int) as isize,
            ..g
        }
    } else {
        g
    }
}

/// After a point: the match ends at seven for either side (the scorer
/// wins), else the scorer serves.
pub open spec fn after_point(g: Game, winner_left: bool) -> Game {
    if g.left_score >= TARGET_SCORE || g.right_score >= TARGET_SCORE {
        Game { finished: true, winner_left, ..g }
    } else {
        served(g, winner_left)
    }
}

/// A ball past the left edge scores for the right player, past the right
/// edge for the left player.
pub open spec fn scored(g: Game) -> Game {
    if g.ball_x + BALL_SIZE < g.arena_left {
        after_point(Game { right_score: (g.right_score + 1) as u8, ..g }, false)
    } else if g.ball_x > g.arena_right {
        after_point(Game { left_score: (g.left_score + 1) as u8, ..g }, true)
    } else {
        g
    }
}

/// A point goes to the player who did not miss: a ball out past the left
/// edge adds one to the right player's score and leaves the left one as it
/// was, and the right player wins if the match ends there; a ball out past
/// the right edge does the same for the left player. The match ends exactly
/// when the scorer reaches seven; a ball inside the arena scores nothing.
/// (Of a match in play.)
pub proof fn lemma_point_goes_to_scorer(g: Game)
    requires
        !g.finished,
        g.left_score < TARGET_SCORE,
        g.right_score < TARGET_SCORE,
    ensures
        g.ball_x + BALL_SIZE < g.arena_left ==> {
            &&& scored(g).right_score == g.right_score + 1
            &&& scored(g).left_score == g.left_score
            &&& scored(g).finished <==> g.right_score + 1 >= TARGET_SCORE
            &&& scored(g).finished ==> !scored(g).winner_left
        },
        !(g.ball_x + BALL_SIZE < g.arena_left) && g.ball_x > g.arena_right ==> {
            &&& scored(g).left_score == g.left_score + 1
            &&& scored(g).right_score == g.right_score
            &&& scored(g).finished <==> g.left_score + 1 >= TARGET_SCORE
            &&& scored(g).finished ==> scored(g).winner_left
        },
        !(g.ball_x + BALL_SIZE < g.arena_left) && !(g.ball_x > g.arena_right) ==> scored(g) == g,
{
}

/// One tick of a match that is on.
pub open spec fn ticked(g: Game) -> Game {
    if g.finished {
        g
    } else {
        scored(hit_right(hit_left(moved(g))))
    }
}

impl Game {
    /// Sizes fit and positions stay near the arena; scores stay below
    /// seven while the match is on.
    pub open spec fn wf(&self) -> bool {
        &&& self.width <= MAX_SIDE
        &&& self.height <= MAX_SIDE
        &&& self.arena_left == 16
        &&& self.arena_top == 44
        &&& self.arena_right == sat_sub(self.width as int, 16)
        &&& self.arena_bottom == sat_sub(self.height as int, 16)
        &&& self.left_score <= TARGET_SCORE
        &&& self.right_score <= TARGET_SCORE
        &&& !self.finished ==> self.left_score < TARGET_SCORE && self.right_score < TARGET_SCORE
        &&& -128 <= self.ball_x <= self.width + 128
        &&& !self.finished ==> -64 <= self.ball_x <= self.width + 64
        &&& -64 <= self.ball_y <= self.height + 64
        &&& abs(self.ball_vx as int) == BALL_SPEED_X
        &&& -5 <= self.ball_vy <= 5
        &&& 0 <= self.left_y <= self.height + 64
        &&& 0 <= self.right_y <= self.height + 64
    }

    /// A new match on a `width` by `height` screen.
    pub fn new(width: usize, height: usize) -> (r: Game)
        requires
            width <= MAX_SIDE,
            height <= MAX_SIDE,
        ensures
            r.wf(),
            r == served(
                Game {
                    width,
                    height,
                    arena_left: 16,
                    arena_top: 44,
                    arena_right: sat_sub(width as int, 16) as usize,
                    arena_bottom: sat_sub(height as int, 16) as usize,
                    left_score: 0,
                    right_score: 0,
                    left_y: 0,
                    right_y: 0,
                    ball_x: 0,
                    ball_y: 0,
                    ball_vx: BALL_SPEED_X,
                    ball_vy: BALL_SPEED_Y,
                    finished: false,
                    winner_left: false,
                },
                true,
            ),
    {
        let mut game = Game {
            width,
            height,
            arena_left: 16,
            arena_top: 44,
            arena_right: width.saturating_sub(16),
            arena_bottom: height.saturating_sub(16),
            left_score: 0,
            right_score: 0,
            left_y: 0,
            right_y: 0,
            ball_x: 0,
            ball_y: 0,
            ball_vx: BALL_SPEED_X,
            ball_vy: BALL_SPEED_Y,
            finished: false,
            winner_left: false,
        };
        game.reset_match();
        game
    }

    /// A new match: scores 0, the left player serves.
    pub fn reset_match(&mut self)
        requires
            old(self).width <= MAX_SIDE,
            old(self).height <= MAX_SIDE,
            old(self).arena_left == 16,
            old(self).arena_top == 44,
            old(self).arena_right == sat_sub(old(self).width as int, 16),
            old(self).arena_bottom == sat_sub(old(self).height as int, 16),
        ensures
            final(self).wf(),
            *final(self) == served(Game { left_score: 0, right_score: 0, finished: false, ..*old(self) }, true),
    {
        self.left_score = 0;
        self.right_score = 0;
        self.finished = false;
        self.reset_round(true);
    }

    /// A new round: the paddles and ball centred, the ball served.
    pub fn reset_round(&mut self, serve_left: bool)
        requires
            old(self).width <= MAX_SIDE,
            old(self).height <= MAX_SIDE,
            old(self).arena_left == 16,
            old(self).arena_top == 44,
            old(self).arena_right == sat_sub(old(self).width as int, 16),
            old(self).arena_bottom == sat_sub(old(self).height as int, 16),
        ensures
            *final(self) == served(*old(self), serve_left),
    {
        let center_y = (self.arena_top + self.arena_bottom).saturating_sub(PADDLE_H) / 2;
        self.left_y = center_y as isize;
        self.right_y = center_y as isize;
        self.ball_x = ((self.arena_left + self.arena_right).saturating_sub(BALL_SIZE) / 2) as isize;
        self.ball_y = ((self.arena_top + self.arena_bottom).saturating_sub(BALL_SIZE) / 2) as isize;
        self.ball_vx = if serve_left {
            BALL_SPEED_X
        } else {
            -BALL_SPEED_X
        };
        self.ball_vy = BALL_SPEED_Y;
    }

    /// Where the left paddle stands.
    pub fn left_paddle_x(&self) -> (r: usize)
        requires
            self.arena_left <= MAX_SIDE,
        ensures
            r == left_x(*self),
    {
        self.arena_left + 10
    }

    /// Where the right paddle stands.
    pub fn right_paddle_x(&self) -> (r: usize)
        ensures
            r == right_x(*self),
    {
        self.arena_right.saturating_sub(10 + PADDLE_W)
    }

    /// The highest a paddle's top goes.
    pub fn paddle_top_limit(&self) -> (r: isize)
        requires
            self.arena_top <= MAX_SIDE,
        ensures
            r == self.arena_top,
    {
        self.arena_top as isize
    }

    /// The lowest a paddle's top goes.
    pub fn paddle_bottom_limit(&self) -> (r: isize)
        requires
            self.arena_bottom <= MAX_SIDE,
        ensures
            r == sat_sub(self.arena_bottom as int, PADDLE_H as int),
    {
        self.arena_bottom.saturating_sub(PADDLE_H) as isize
    }

    /// The paddles fit the arena, so that moving them is defined.
    pub open spec fn paddles_fit(&self) -> bool {
        self.arena_top <= sat_sub(self.arena_bottom as int, PADDLE_H as int)
    }

    /// Moves the left paddle by `delta`, kept within the arena.
    pub fn move_left(&mut self, delta: isize)
        requires
            old(self).wf(),
            old(self).paddles_fit(),
            -PADDLE_SPEED <= delta <= PADDLE_SPEED,
        ensures
            final(self).wf(),
            *final(self) == (Game {
                left_y: clamp(old(self).left_y + delta, 44, sat_sub(old(self).arena_bottom as int, PADDLE_H as int)) as isize,
                ..*old(self)
            }),
    {
        let lo = self.paddle_top_limit();
        let hi = self.paddle_bottom_limit();
        self.left_y = clamp_isize(self.left_y + delta, lo, hi);
    }

    /// Moves the right paddle by `delta`, kept within the arena.
    pub fn move_right(&mut self, delta: isize)
        requires
            old(self).wf(),
            old(self).paddles_fit(),
            -PADDLE_SPEED <= delta <= PADDLE_SPEED,
        ensures
            final(self).wf(),
            *final(self) == (Game {
                right_y: clamp(old(self).right_y + delta, 44, sat_sub(old(self).arena_bottom as int, PADDLE_H as int)) as isize,
                ..*old(self)
            }),
    {
        let lo = self.paddle_top_limit();
        let hi = self.paddle_bottom_limit();
        self.right_y = clamp_isize(self.right_y + delta, lo, hi);
    }

    /// Whether the ball touches a paddle whose top is at `paddle_y`, vertically.
    pub fn overlap_with_paddle(&self, paddle_y: isize) -> (r: bool)
        requires
            self.wf(),
            0 <= paddle_y <= 2 * MAX_SIDE,
        ensures
            r == overlaps(*self, paddle_y as int),
    {
        let ball_top = self.ball_y;
        let ball_bottom = self.ball_y + BALL_SIZE as isize;
        let paddle_top = paddle_y;
        let paddle_bottom = paddle_y + PADDLE_H as isize;
        ball_bottom >= paddle_top && ball_top <= paddle_bottom
    }

    /// Sets the ball's vertical speed after a hit on a paddle whose top is at `paddle_y`.
    pub fn adjust_ball_vy(&mut self, paddle_y: isize)
        requires
            -MAX_SIDE <= old(self).ball_y <= 2 * MAX_SIDE,
            0 <= paddle_y <= 2 * MAX_SIDE,
        ensures
            *final(self) == (Game { ball_vy: deflected_vy(*old(self), paddle_y as int) as isize, ..*old(self) }),
    {
        let ball_center = self.ball_y + BALL_SIZE as isize / 2;
        let paddle_center = paddle_y + PADDLE_H as isize / 2;
        let relative = ball_center - paddle_center;
        self.ball_vy = if relative <= -14 {
            -5
        } else if relative <= -5 {
            -3
        } else if relative <= 4 {
            if self.ball_vy >= 0 {
                2
            } else {
                -2
            }
        } else if relative <= 13 {
            3
        } else {
            5
        };
    }

    /// Ends the match if a side reached seven (the scorer wins), else serves again.
    pub fn finish_or_reset(&mut self, winner_left: bool)
        requires
            old(self).width <= MAX_SIDE,
            old(self).height <= MAX_SIDE,
            old(self).arena_left == 16,
            old(self).arena_top == 44,
            old(self).arena_right == sat_sub(old(self).width as int, 16),
            old(self).arena_bottom == sat_sub(old(self).height as int, 16),
        ensures
            *final(self) == after_point(*old(self), winner_left),
    {
        if self.left_score >= TARGET_SCORE || self.right_score >= TARGET_SCORE {
            self.finished = true;
            self.winner_left = winner_left;
        } else {
            self.reset_round(winner_left);
        }
    }

    /// Moves the ball by its speed and bounces it off the top and bottom walls.
    fn move_ball(&mut self)
        requires
            old(self).wf(),
            !old(self).finished,
        ensures
            *final(self) == moved(*old(self)),
    {
        self.ball_x = self.ball_x + self.ball_vx;
        self.ball_y = self.ball_y + self.ball_vy;
        if self.ball_y <= self.arena_top as isize {
            self.ball_y = self.arena_top as isize;
            self.ball_vy = abs_isize(self.ball_vy);
        }
        let bottom_limit = self.arena_bottom.saturating_sub(BALL_SIZE) as isize;
        if self.ball_y >= bottom_limit {
            self.ball_y = bottom_limit;
            self.ball_vy = -abs_isize(self.ball_vy);
        }
    }

    /// Bounces the ball off the left paddle if it meets it heading left.
    fn bounce_left(&mut self)
        requires
            moved_bounds(*old(self)),
        ensures
            *final(self) == hit_left(*old(self)),
    {
        let left_x = self.left_paddle_x() as isize;
        if self.ball_vx < 0 && self.ball_x <= left_x + PADDLE_W as isize && self.ball_x + BALL_SIZE as isize
            >= left_x && self.ball_y + BALL_SIZE as isize >= self.left_y && self.ball_y <= self.left_y
            + PADDLE_H as isize {
            self.ball_x = left_x + PADDLE_W as isize;
            self.ball_vx = abs_isize(self.ball_vx);
            let ly = self.left_y;
            self.adjust_ball_vy(ly);
        }
    }

    /// Bounces the ball off the right paddle if it meets it heading right.
    fn bounce_right(&mut self)
        requires
            moved_bounds(*old(self)),
        ensures
            *final(self) == hit_right(*old(self)),
    {
        let right_x = self.right_paddle_x() as isize;
        if self.ball_vx > 0 && self.ball_x + BALL_SIZE as isize >= right_x && self.ball_x <= right_x
            + PADDLE_W as isize && self.ball_y + BALL_SIZE as isize >= self.right_y && self.ball_y
            <= self.right_y + PADDLE_H as isize {
            self.ball_x = right_x - BALL_SIZE as isize;
            self.ball_vx = -abs_isize(self.ball_vx);
            let ry = self.right_y;
            self.adjust_ball_vy(ry);
        }
    }

    /// Scores a point for a ball past either edge.
    fn score_point(&mut self)
        requires
            moved_bounds(*old(self)),
        ensures
            *final(self) == scored(*old(self)),
            old(self).ball_x + BALL_SIZE < old(self).arena_left ==> final(self).right_score
                == old(self).right_score + 1 && final(self).left_score == old(self).left_score,
            !(old(self).ball_x + BALL_SIZE < old(self).arena_left) && old(self).ball_x
                > old(self).arena_right ==> final(self).left_score == old(self).left_score + 1
                && final(self).right_score == old(self).right_score,
    {
        proof {
            lemma_point_goes_to_scorer(*self);
        }
        if self.ball_x + (BALL_SIZE as isize) < self.arena_left as isize {
            self.right_score = self.right_score + 1;
            self.finish_or_reset(false);
        } else if self.ball_x > self.arena_right as isize {
            self.left_score = self.left_score + 1;
            self.finish_or_reset(true);
        }
    }

    /// One tick: the ball moves, bounces off walls and paddles, and a ball
    /// past either edge scores a point. A finished match stays as it is.
    pub fn tick(&mut self)
        requires
            old(self).wf(),
        ensures
            final(self).wf(),
            *final(self) == ticked(*old(self)),
    {
        if self.finished {
            return;
        }
        proof {
            lemma_moved_bounds(*self);
        }
        self.move_ball();
        proof {
            lemma_hit_left_bounds(*self);
        }
        self.bounce_left();
        proof {
            lemma_hit_right_bounds(*self);
        }
        self.bounce_right();
        self.score_point();
        proof {
            lemma_scored_wf(*old(self));
        }
    }
}

/// What holds of a match between the moves of one tick.
pub open spec fn moved_bounds(g: Game) -> bool {
    &&& g.width <= MAX_SIDE
    &&& g.height <= MAX_SIDE
    &&& g.arena_left == 16
    &&& g.arena_top == 44
    &&& g.arena_right == sat_sub(g.width as int, 16)
    &&& g.arena_bottom == sat_sub(g.height as int, 16)
    &&& g.left_score < TARGET_SCORE
    &&& g.right_score < TARGET_SCORE
    &&& !g.finished
    &&& -68 <= g.ball_x <= g.width + 68
    &&& -64 <= g.ball_y <= g.height + 64
    &&& abs(g.ball_vx as int) == BALL_SPEED_X
    &&& -5 <= g.ball_vy <= 5
    &&& 0 <= g.left_y <= g.height + 64
    &&& 0 <= g.right_y <= g.height + 64
}

proof fn lemma_moved_bounds(g: Game)
    requires
        g.wf(),
        !g.finished,
    ensures
        moved_bounds(moved(g)),
{
}

proof fn lemma_hit_left_bounds(g: Game)
    requires
        moved_bounds(g),
    ensures
        moved_bounds(hit_left(g)),
{
}

proof fn lemma_hit_right_bounds(g: Game)
    requires
        moved_bounds(g),
    ensures
        moved_bounds(hit_right(g)),
{
}

proof fn lemma_scored_wf(g: Game)
    requires
        g.wf(),
    ensures
        ticked(g).wf(),
{
    if !g.finished {
        lemma_moved_bounds(g);
        lemma_hit_left_bounds(moved(g));
        lemma_hit_right_bounds(hit_left(moved(g)));
    }
}

/// `|v|`.
fn abs_isize(v: isize) -> (r: isize)
    requires
        v > isize::MIN,
    ensures
        r == abs(v as int),
{
    if v < 0 {
        -v
    } else {
        v
    }
}

/// `v` held within `lo..=hi`.
fn clamp_isize(v: isize, lo: isize, hi: isize) -> (r: isize)
    requires
        lo <= hi,
    ensures
        r == clamp(v as int, lo as int, hi as int),
{
    if v < lo {
        lo
    } else if v > hi {
        hi
    } else {
        v
    }
}

/// Applies one key a player sent: w and s move the left paddle up and
/// down, o and l the right one (either case), r starts a new match; gives
/// whether the key was q (quit). Other keys change nothing.
pub fn handle_key(game: &mut Game, key: u8) -> (quit: bool)
    requires
        old(game).wf(),
        is_move_key(key) ==> old(game).paddles_fit(),
    ensures
        final(game).wf(),
        quit == (key == 0x71 || key == 0x51),
        *final(game) == if key == 0x77 || key == 0x57 {
            Game { left_y: clamp(old(game).left_y - PADDLE_SPEED, 44, sat_sub(old(game).arena_bottom as int, PADDLE_H as int)) as isize, ..*old(game) }
        } else if key == 0x73 || key == 0x53 {
            Game { left_y: clamp(old(game).left_y + PADDLE_SPEED, 44, sat_sub(old(game).arena_bottom as int, PADDLE_H as int)) as isize, ..*old(game) }
        } else if key == 0x6f || key == 0x4f {
            Game { right_y: clamp(old(game).right_y - PADDLE_SPEED, 44, sat_sub(old(game).arena_bottom as int, PADDLE_H as int)) as isize, ..*old(game) }
        } else if key == 0x6c || key == 0x4c {
            Game { right_y: clamp(old(game).right_y + PADDLE_SPEED, 44, sat_sub(old(game).arena_bottom as int, PADDLE_H as int)) as isize, ..*old(game) }
        } else if key == 0x72 || key == 0x52 {
            served(Game { left_score: 0, right_score: 0, finished: false, ..*old(game) }, true)
        } else {
            *old(game)
        },
{
    if key == 0x77 || key == 0x57 {
        game.move_left(-PADDLE_SPEED);
        false
    } else if key == 0x73 || key == 0x53 {
        game.move_left(PADDLE_SPEED);
        false
    } else if key == 0x6f || key == 0x4f {
        game.move_right(-PADDLE_SPEED);
        false
    } else if key == 0x6c || key == 0x4c {
        game.move_right(PADDLE_SPEED);
        false
    } else if key == 0x72 || key == 0x52 {
        game.reset_match();
        false
    } else {
        key == 0x71 || key == 0x51
    }
}

/// A key that moves a paddle.
pub open spec fn is_move_key(key: u8) -> bool {
    key == 0x77 || key == 0x57 || key == 0x73 || key == 0x53 || key == 0x6f || key == 0x4f || key == 0x6c
        || key == 0x4c
}

/// Whether the input process stops after forwarding this key.
pub fn is_quit_key(key: u8) -> (r: bool)
    ensures
        r == (key == 0x71 || key == 0x51),
{
    key == 0x71 || key == 0x51
}

/// The segments lit for a digit, top segment in bit 6 down to the bottom
/// one in bit 0 (any digit above 8 shows as 9).
pub open spec fn digit_mask(digit: u8) -> u8 {
    if digit == 0 {
        0x7e
    } else if digit == 1 {
        0x30
    } else if digit == 2 {
        0x6d
    } else if digit == 3 {
        0x79
    } else if digit == 4 {
        0x33
    } else if digit == 5 {
        0x5b
    } else if digit == 6 {
        0x5f
    } else if digit == 7 {
        0x70
    } else if digit == 8 {
        0x7f
    } else {
        0x7b
    }
}

/// Segment `i` of a digit drawn at `(x, y)`: top, upper left, upper right,
/// middle, lower left, lower right, bottom.
pub open spec fn segment(x: int, y: int, i: int) -> Rect {
    let side = SCORE_SEG as int;
    let long = (SCORE_W - SCORE_SEG * 2) as int;
    let half = (SCORE_H / 2 - SCORE_SEG) as int;
    if i == 0 {
        rect(x + side, y, long, side, COLOR_SCORE)
    } else if i == 1 {
        rect(x, y + side, side, half, COLOR_SCORE)
    } else if i == 2 {
        rect(x + (SCORE_W - SCORE_SEG), y + side, side, half, COLOR_SCORE)
    } else if i == 3 {
        rect(x + side, y + SCORE_H / 2 - SCORE_SEG / 2, long, side, COLOR_SCORE)
    } else if i == 4 {
        rect(x, y + SCORE_H / 2, side, half, COLOR_SCORE)
    } else if i == 5 {
        rect(x + (SCORE_W - SCORE_SEG), y + SCORE_H / 2, side, half, COLOR_SCORE)
    } else {
        rect(x + side, y + (SCORE_H - SCORE_SEG), long, side, COLOR_SCORE)
    }
}

/// Segment `i` is lit in `mask`.
pub open spec fn lit(mask: u8, i: int) -> bool {
    (mask >> ((6 - i) as u8)) & 1u8 == 1u8
}

/// The lit segments among segments `i..7`, in order.
pub open spec fn lit_segments(x: int, y: int, mask: u8, i: int) -> Seq<Rect>
    decreases 7 - i,
{
    if i >= 7 || i < 0 {
        seq![]
    } else {
        (if lit(mask, i) {
            seq![segment(x, y, i)]
        } else {
            seq![]
        }) + lit_segments(x, y, mask, i + 1)
    }
}

/// The rectangles of a seven-segment digit drawn at `(x, y)`.
pub fn draw_digit(x: usize, y: usize, digit: u8) -> (r: Vec<Rect>)
    requires
        x + SCORE_W <= usize::MAX,
        y + SCORE_H <= usize::MAX,
    ensures
        r@ == lit_segments(x as int, y as int, digit_mask(digit), 0),
{
    let mask: u8 = if digit == 0 {
        0x7e
    } else if digit == 1 {
        0x30
    } else if digit == 2 {
        0x6d
    } else if digit == 3 {
        0x79
    } else if digit == 4 {
        0x33
    } else if digit == 5 {
        0x5b
    } else if digit == 6 {
        0x5f
    } else if digit == 7 {
        0x70
    } else if digit == 8 {
        0x7f
    } else {
        0x7b
    };
    let mut v: Vec<Rect> = Vec::new();
    let mut idx: usize = 0;
    while idx < 7
        invariant
            idx <= 7,
            x + SCORE_W <= usize::MAX,
            y + SCORE_H <= usize::MAX,
            v@ + lit_segments(x as int, y as int, mask, idx as int) == lit_segments(x as int, y as int, mask, 0),
        decreases 7 - idx,
    {
        let shift = (6 - idx) as u8;
        if (mask >> shift) & 1u8 == 1u8 {
            let seg = segment_rect(x, y, idx);
            v.push(seg);
        }
        proof {
            assert(lit_segments(x as int, y as int, mask, idx as int) =~= (if lit(mask, idx as int) {
                seq![segment(x as int, y as int, idx as int)]
            } else {
                seq![]
            }) + lit_segments(x as int, y as int, mask, idx + 1));
        }
        idx = idx + 1;
    }
    assert(lit_segments(x as int, y as int, mask, 7) =~= seq![]);
    assert(v@ =~= lit_segments(x as int, y as int, mask, 0));
    v
}

/// Segment `i` of a digit drawn at `(x, y)`.
fn segment_rect(x: usize, y: usize, i: usize) -> (r: Rect)
    requires
        i < 7,
        x + SCORE_W <= usize::MAX,
        y + SCORE_H <= usize::MAX,
    ensures
        r == segment(x as int, y as int, i as int),
{
    let long = SCORE_W - SCORE_SEG * 2;
    let half = SCORE_H / 2 - SCORE_SEG;
    if i == 0 {
        Rect { x: x + SCORE_SEG, y, w: long, h: SCORE_SEG, color: COLOR_SCORE }
    } else if i == 1 {
        Rect { x, y: y + SCORE_SEG, w: SCORE_SEG, h: half, color: COLOR_SCORE }
    } else if i == 2 {
        Rect { x: x + (SCORE_W - SCORE_SEG), y: y + SCORE_SEG, w: SCORE_SEG, h: half, color: COLOR_SCORE }
    } else if i == 3 {
        Rect { x: x + SCORE_SEG, y: y + SCORE_H / 2 - SCORE_SEG / 2, w: long, h: SCORE_SEG, color: COLOR_SCORE }
    } else if i == 4 {
        Rect { x, y: y + SCORE_H / 2, w: SCORE_SEG, h: half, color: COLOR_SCORE }
    } else if i == 5 {
        Rect { x: x + (SCORE_W - SCORE_SEG), y: y + SCORE_H / 2, w: SCORE_SEG, h: half, color: COLOR_SCORE }
    } else {
        Rect { x: x + SCORE_SEG, y: y + (SCORE_H - SCORE_SEG), w: long, h: SCORE_SEG, color: COLOR_SCORE }
    }
}

/// The frame around the arena: top, bottom, left and right sides.
pub open spec fn border_rects(g: Game) -> Seq<Rect> {
    let x0 = sat_sub(g.arena_left as int, BORDER as int);
    let y0 = sat_sub(g.arena_top as int, BORDER as int);
    let w = sat_sub(g.arena_right as int, g.arena_left as int) + BORDER * 2;
    let h = sat_sub(g.arena_bottom as int, g.arena_top as int) + BORDER * 2;
    seq![
        rect(x0, y0, w, BORDER as int, COLOR_BORDER),
        rect(x0, g.arena_bottom as int, w, BORDER as int, COLOR_BORDER),
        rect(x0, y0, BORDER as int, h, COLOR_BORDER),
        rect(g.arena_right as int, y0, BORDER as int, h, COLOR_BORDER),
    ]
}

/// The rectangles of the frame around the arena.
pub fn draw_border(game: &Game) -> (r: Vec<Rect>)
    requires
        game.wf(),
    ensures
        r@ == border_rects(*game),
{
    let x0 = game.arena_left.saturating_sub(BORDER);
    let y0 = game.arena_top.saturating_sub(BORDER);
    let w = game.arena_right.saturating_sub(game.arena_left) + BORDER * 2;
    let h = game.arena_bottom.saturating_sub(game.arena_top) + BORDER * 2;
    let mut v: Vec<Rect> = Vec::new();
    v.push(Rect { x: x0, y: y0, w, h: BORDER, color: COLOR_BORDER });
    v.push(Rect { x: x0, y: game.arena_bottom, w, h: BORDER, color: COLOR_BORDER });
    v.push(Rect { x: x0, y: y0, w: BORDER, h, color: COLOR_BORDER });
    v.push(Rect { x: game.arena_right, y: y0, w: BORDER, h, color: COLOR_BORDER });
    assert(v@ =~= border_rects(*game));
    v
}

/// How many dashes the centre line has: one every 18 pixels from 8 below
/// the arena's top while a dash's top lies more than 8 above its bottom.
pub open spec fn dash_count(g: Game) -> int {
    let first = g.arena_top + 8;
    if first + 8 < g.arena_bottom {
        (g.arena_bottom - first - 8 - 1) / 18 + 1
    } else {
        0
    }
}

/// The dashes of the centre line, top to bottom.
pub open spec fn center_line(g: Game) -> Seq<Rect> {
    let cx = sat_sub(((g.arena_left + g.arena_right) / 2) as int, 1);
    Seq::new(dash_count(g) as nat, |k: int| rect(cx, g.arena_top + 8 + 18 * k, 2, 10, COLOR_BORDER))
}

/// The rectangles of the dashed centre line.
pub fn draw_center_line(game: &Game) -> (r: Vec<Rect>)
    requires
        game.wf(),
    ensures
        r@ == center_line(*game),
{
    let center_x = (game.arena_left + game.arena_right) / 2;
    let cx = center_x.saturating_sub(1);
    let mut v: Vec<Rect> = Vec::new();
    let mut y = game.arena_top + 8;
    let ghost n = dash_count(*game);
    while y + 8 < game.arena_bottom
        invariant
            game.wf(),
            cx == sat_sub(((game.arena_left + game.arena_right) / 2) as int, 1),
            y == game.arena_top + 8 + 18 * v@.len(),
            v@.len() <= n,
            n == dash_count(*game),
            v@ == center_line(*game).take(v@.len() as int),
            y + 8 < game.arena_bottom ==> v@.len() < n,
            y + 8 >= game.arena_bottom ==> v@.len() == n,
        decreases n - v@.len(),
    {
        v.push(Rect { x: cx, y, w: 2, h: 10, color: COLOR_BORDER });
        y = y + 18;
        proof {
            assert(v@ =~= center_line(*game).take(v@.len() as int));
            let k = v@.len();
            assert(y + 8 < game.arena_bottom ==> k < n) by (nonlinear_arith)
                requires
                    y == game.arena_top + 8 + 18 * k,
                    n == (if game.arena_top + 16 < game.arena_bottom { (game.arena_bottom - game.arena_top - 16 - 1) / 18 + 1 } else { 0 }),
            ;
            assert(y + 8 >= game.arena_bottom ==> k == n) by (nonlinear_arith)
                requires
                    y == game.arena_top + 8 + 18 * k,
                    y - 18 + 8 < game.arena_bottom,
                    k >= 1,
                    n == (if game.arena_top + 16 < game.arena_bottom { (game.arena_bottom - game.arena_top - 16 - 1) / 18 + 1 } else { 0 }),
            ;
        }
    }
    proof {
        assert(center_line(*game).take(n) =~= center_line(*game));
    }
    v
}

/// Both scores: the left one left of the screen's centre, the right one right of it.
pub open spec fn score_rects(g: Game) -> Seq<Rect> {
    let cx = g.width / 2;
    lit_segments(sat_sub(cx as int, 40), 10, digit_mask(g.left_score), 0) + lit_segments(
        cx + 22,
        10,
        digit_mask(g.right_score),
        0,
    )
}

/// The rectangles of both scores.
pub fn draw_scores(game: &Game) -> (r: Vec<Rect>)
    requires
        game.wf(),
    ensures
        r@ == score_rects(*game),
{
    let center_x = game.width / 2;
    let score_y: usize = 10;
    let mut v = draw_digit(center_x.saturating_sub(40), score_y, game.left_score);
    let mut right = draw_digit(center_x + 22, score_y, game.right_score);
    v.append(&mut right);
    v
}

/// What marks the end of a match or the ball: the ball while the match is
/// on, else a bar beside the winner's paddle.
pub open spec fn ball_or_marker(g: Game) -> Rect {
    if !g.finished {
        rect((g.ball_x as usize) as int, (g.ball_y as usize) as int, BALL_SIZE as int, BALL_SIZE as int, COLOR_BALL)
    } else {
        let marker_x = if g.winner_left {
            left_x(g) + 20
        } else {
            sat_sub(right_x(g), 20)
        };
        rect(marker_x, g.arena_top + 20, 8, sat_sub(g.arena_bottom as int, g.arena_top + 40), COLOR_BALL)
    }
}

/// The rectangles of a frame, in drawing order: background, arena,
/// border, centre line, scores, the two paddles, then the ball or the
/// winner's marker.
pub open spec fn scene(g: Game) -> Seq<Rect> {
    seq![
        rect(0, 0, g.width as int, g.height as int, COLOR_BG),
        rect(
            g.arena_left as int,
            g.arena_top as int,
            sat_sub(g.arena_right as int, g.arena_left as int),
            sat_sub(g.arena_bottom as int, g.arena_top as int),
            COLOR_FIELD,
        ),
    ] + border_rects(g) + center_line(g) + score_rects(g) + seq![
        rect(left_x(g), g.left_y as int, PADDLE_W as int, PADDLE_H as int, COLOR_LEFT),
        rect(right_x(g), g.right_y as int, PADDLE_W as int, PADDLE_H as int, COLOR_RIGHT),
        ball_or_marker(g),
    ]
}

/// The rectangles one frame of the match is drawn with.
pub fn render(game: &Game) -> (r: Vec<Rect>)
    requires
        game.wf(),
    ensures
        r@ == scene(*game),
{
    let mut v: Vec<Rect> = Vec::new();
    v.push(Rect { x: 0, y: 0, w: game.width, h: game.height, color: COLOR_BG });
    v.push(
        Rect {
            x: game.arena_left,
            y: game.arena_top,
            w: game.arena_right.saturating_sub(game.arena_left),
            h: game.arena_bottom.saturating_sub(game.arena_top),
            color: COLOR_FIELD,
        },
    );
    let mut border = draw_border(game);
    v.append(&mut border);
    let mut line = draw_center_line(game);
    v.append(&mut line);
    let mut scores = draw_scores(game);
    v.append(&mut scores);
    v.push(Rect { x: game.left_paddle_x(), y: game.left_y as usize, w: PADDLE_W, h: PADDLE_H, color: COLOR_LEFT });
    v.push(Rect { x: game.right_paddle_x(), y: game.right_y as usize, w: PADDLE_W, h: PADDLE_H, color: COLOR_RIGHT });
    if !game.finished {
        v.push(Rect { x: game.ball_x as usize, y: game.ball_y as usize, w: BALL_SIZE, h: BALL_SIZE, color: COLOR_BALL });
    } else {
        let marker_x = if game.winner_left {
            game.left_paddle_x() + 20
        } else {
            game.right_paddle_x().saturating_sub(20)
        };
        v.push(
            Rect {
                x: marker_x,
                y: game.arena_top + 20,
                w: 8,
                h: game.arena_bottom.saturating_sub(game.arena_top + 40),
                color: COLOR_BALL,
            },
        );
    }
    assert(v@ =~= scene(*game));
    v
}

/// The test pattern shown before the match: red, green and blue thirds
/// and a white square in the middle.
pub open spec fn startup_pattern(width: int, height: int) -> Seq<Rect> {
    let third = width / 3;
    seq![
        rect(0, 0, third, height, 0xffff_2020),
        rect(third, 0, third, height, 0xff20_ff20),
        rect(third * 2, 0, sat_sub(width, third * 2), height, 0xff20_40ff),
        rect(width / 2 - 10, height / 2 - 10, 20, 20, 0xffff_ffff),
    ]
}

/// The rectangles of the test pattern.
pub fn draw_startup_pattern(width: usize, height: usize) -> (r: Vec<Rect>)
    requires
        width >= 20,
        height >= 20,
    ensures
        r@ == startup_pattern(width as int, height as int),
{
    let third = width / 3;
    let mut v: Vec<Rect> = Vec::new();
    v.push(Rect { x: 0, y: 0, w: third, h: height, color: 0xffff_2020 });
    v.push(Rect { x: third, y: 0, w: third, h: height, color: 0xff20_ff20 });
    v.push(Rect { x: third * 2, y: 0, w: width.saturating_sub(third * 2), h: height, color: 0xff20_40ff });
    v.push(Rect { x: width / 2 - 10, y: height / 2 - 10, w: 20, h: 20, color: 0xffff_ffff });
    assert(v@ =~= startup_pattern(width as int, height as int));
    v
}

} // verus!
