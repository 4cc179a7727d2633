//! The game controller: the snake, the food, the game-over flag, and the
//! tick timer that gates every state change.
use vstd::prelude::*;

use crate::host::rand_range;
use crate::snake::distinct_cells;
use crate::snake::in_interior;
use crate::snake::lemma_grow_keeps_distinct;
use crate::snake::lemma_step_keeps_distinct;
use crate::snake::lemma_spawn_inside;
use crate::snake::spec_new_direction;
use crate::snake::Block;
use crate::snake::Direction;
use crate::snake::Snake;
use crate::snake::SnakeView;

verus! {

/// Milliseconds between ordinary ticks.
pub const MOVE_RATE: u128 = 200;

/// Milliseconds of grace after a collision, before the game restarts.
pub const GAME_OVER_RATE: u128 = 2000;

/// Starting length of a snake, in cells.
pub const SNAKE_LEN: i32 = 3;

/// Largest accepted board dimension; keeps every step well inside i32.
pub const MAX_DIM: i32 = 0x3fff_ffff;

/// Smallest board that leaves the spawn window of a starting snake non-empty.
pub const MIN_DIM: i32 = 9;

/// The mathematical model of the controller state.
#[verifier::ext_equal]
pub ghost struct GameView {
    pub snake: SnakeView,
    pub has_food: bool,
    pub food_x: i32,
    pub food_y: i32,
    pub game_over: bool,
    pub next_move: u128,
    pub width: i32,
    pub height: i32,
}

impl GameView {
    /// The cell the food sits on.
    pub open spec fn food(self) -> Block {
        Block { x: self.food_x, y: self.food_y }
    }

    /// The controller invariant: a well-formed snake whose cells all lie
    /// strictly inside the border ring, a retained tail that does too, food
    /// inside the ring whenever it is present, and sane board dimensions.
    pub open spec fn wf(self) -> bool {
        &&& self.snake.wf()
        &&& MIN_DIM <= self.width <= MAX_DIM
        &&& MIN_DIM <= self.height <= MAX_DIM
        &&& forall|i: int|
            0 <= i < self.snake.body.len() ==> in_interior(
                #[trigger] self.snake.body[i],
                self.width,
                self.height,
            )
        &&& (self.snake.tail matches Some(t) ==> in_interior(t, self.width, self.height))
        &&& (self.has_food ==> in_interior(self.food(), self.width, self.height))
    }

    /// The snake's next head collides: it meets a body cell, or it lies on
    /// the outer border ring.
    pub open spec fn collides(self) -> bool {
        let nh = self.snake.next_head();
        self.snake.body.contains(nh) || nh.x == 0 || nh.y == 0 || nh.x == self.width - 1
            || nh.y == self.height - 1
    }
}

/// The play-time distinctness invariant of the snake: its cells are pairwise
/// distinct and, while the game is running, the retained tail is off the
/// body. (Eating on the very tick of a collision parks the tail on the body,
/// but then the game is over and the next fired tick replaces the snake.)
pub open spec fn distinct_ok(g: GameView) -> bool {
    &&& distinct_cells(g.snake.body)
    &&& (g.snake.tail matches Some(t) ==> (g.game_over || !g.snake.body.contains(t)))
}

/// What a restart leaves behind: a fresh spawned snake of the starting
/// length, no food, the game-over flag cleared, everything else kept.
pub open spec fn restarted(pre: GameView, post: GameView) -> bool {
    &&& post.snake.spawned(SNAKE_LEN, pre.width, pre.height)
    &&& post.snake.body.len() == SNAKE_LEN
    &&& post.has_food == false
    &&& post.game_over == false
    &&& post.food_x == pre.food_x
    &&& post.food_y == pre.food_y
    &&& post.next_move == pre.next_move
    &&& post.width == pre.width
    &&& post.height == pre.height
}

/// The game with food placed on the given cell.
pub open spec fn with_food(g: GameView, fx: i32, fy: i32) -> GameView {
    GameView { has_food: true, food_x: fx, food_y: fy, ..g }
}

/// The restart step of a tick: a game that was over comes back with a fresh
/// snake; one that was running is untouched.
pub open spec fn restarted_rel(pre: GameView, g1: GameView) -> bool {
    if pre.game_over {
        restarted(pre, g1)
    } else {
        g1 == pre
    }
}

/// The food-placement step of a tick: when food is absent, either some free
/// interior cell receives it, or the snake covers the whole interior and
/// nothing is placed. Food is never placed on a body cell.
pub open spec fn placed_food(g1: GameView, g2: GameView) -> bool {
    if !g1.has_food {
        ||| exists|fx: i32, fy: i32|
            in_interior(Block { x: fx, y: fy }, g1.width, g1.height)
                && !g1.snake.body.contains(Block { x: fx, y: fy }) && g2 == #[trigger] with_food(
                g1,
                fx,
                fy,
            )
        ||| ((forall|b: Block|
            in_interior(b, g1.width, g1.height) ==> g1.snake.body.contains(b)) && g2 == g1)
    } else {
        g2 == g1
    }
}

/// The eating step of a tick: when the next head sits on present food, the
/// snake regrows and the food is consumed; otherwise nothing changes.
pub open spec fn fed(g: GameView) -> GameView {
    if g.has_food && g.snake.next_head() == g.food() {
        GameView { snake: g.snake.grown(), has_food: false, ..g }
    } else {
        g
    }
}

/// The move step of a tick: the next tick is first due one move period from
/// `now`; then either the next head collides, which ends the game and pushes
/// the next tick out to the grace period, or the snake takes the step.
pub open spec fn moved(g: GameView, now: u128) -> GameView {
    let g1 = GameView { next_move: (now + MOVE_RATE) as u128, ..g };
    if g1.collides() {
        GameView { game_over: true, next_move: (now + GAME_OVER_RATE) as u128, ..g1 }
    } else {
        GameView { snake: g1.snake.step(), ..g1 }
    }
}

/// One fired tick, written out: restart if the game was over, place food if
/// none is present, eat, then collide or move.
pub open spec fn tick_chain(
    pre: GameView,
    g1: GameView,
    g2: GameView,
    post: GameView,
    now: u128,
) -> bool {
    &&& restarted_rel(pre, g1)
    &&& placed_food(g1, g2)
    &&& post == moved(fed(g2), now)
}

/// What a fired tick may do, for some outcome of the restart spawn and the
/// food draw.
pub open spec fn tick_rel(pre: GameView, post: GameView, now: u128) -> bool {
    exists|g1: GameView, g2: GameView| #[trigger] tick_chain(pre, g1, g2, post, now)
}

/// Law: when the next head collides, the move step ends the game, leaves the
/// snake exactly where it was, and pushes the next tick out to the longer
/// grace period.
pub proof fn lemma_collision_stops(g: GameView, now: u128)
    requires
        g.collides(),
        now + GAME_OVER_RATE <= u128::MAX,
    ensures
        moved(g, now).game_over == true,
        moved(g, now).snake == g.snake,
        moved(g, now).next_move == now + GAME_OVER_RATE,
        moved(g, now).width == g.width,
        moved(g, now).height == g.height,
{
}

/// Law: a tick whose next head sits on present food adds exactly one cell to
/// a snake that has moved before (its dropped tail is retained) and consumes
/// the food, whether or not the step after the meal collides.
pub proof fn lemma_eat_grows(g: GameView, now: u128)
    requires
        g.snake.wf(),
        g.has_food,
        g.snake.next_head() == g.food(),
        g.snake.tail is Some,
    ensures
        moved(fed(g), now).snake.body.len() == g.snake.body.len() + 1,
        moved(fed(g), now).has_food == false,
{
}

/// Law: a tick fired on a finished game leaves it running again. The snake
/// is replaced by a fresh spawn of the starting length, whose first step can
/// never collide, so the tick ends with the game-over flag cleared, a snake
/// of the starting length, and the board dimensions kept.
pub proof fn lemma_tick_restarts(pre: GameView, post: GameView, now: u128)
    requires
        pre.wf(),
        pre.game_over,
        tick_rel(pre, post, now),
    ensures
        !post.game_over,
        post.snake.body.len() == SNAKE_LEN as int,
        post.width == pre.width,
        post.height == pre.height,
{
    let (g1, g2) = choose|g1: GameView, g2: GameView| tick_chain(pre, g1, g2, post, now);
    assert(restarted(pre, g1));
    assert(g2.snake == g1.snake && g2.width == g1.width && g2.height == g1.height
        && g2.game_over == g1.game_over);
    assert(fed(g2).snake == g2.snake);
    crate::snake::lemma_spawn_next_head_free(g1.snake, SNAKE_LEN, pre.width, pre.height);
    assert(!fed(g2).collides());
    assert(post == moved(fed(g2), now));
}

pub struct Game {
    snake: Snake,
    has_food: bool,
    food_x: i32,
    food_y: i32,
    game_over: bool,
    next_move: u128,
    width: i32,
    height: i32,
}

impl View for Game {
    type V = GameView;

    closed spec fn view(&self) -> GameView {
        GameView {
            snake: self.snake@,
            has_food: self.has_food,
            food_x: self.food_x,
            food_y: self.food_y,
            game_over: self.game_over,
            next_move: self.next_move,
            width: self.width,
            height: self.height,
        }
    }
}

impl Game {
    /// A new game on a `width` by `height` board: a freshly spawned snake,
    /// no food, not over, the first tick scheduled one move period past the
    /// given clock reading.
    pub fn new(width: i32, height: i32, now: u128) -> (g: Game)
        requires
            MIN_DIM <= width <= MAX_DIM,
            MIN_DIM <= height <= MAX_DIM,
            now + MOVE_RATE <= u128::MAX,
        ensures
            g@.wf(),
            g@.width == width,
            g@.height == height,
            g@.has_food == false,
            g@.food_x == 0,
            g@.food_y == 0,
            g@.game_over == false,
            g@.next_move == now + MOVE_RATE,
            g@.snake.spawned(SNAKE_LEN, width, height),
            g@.snake.body.len() == SNAKE_LEN as int,
            distinct_ok(g@),
    {
        let snake = Snake::new(SNAKE_LEN, width, height);
        proof {
            lemma_spawn_inside(snake@, SNAKE_LEN, width, height);
        }
        Game {
            snake,
            has_food: false,
            food_x: 0,
            food_y: 0,
            game_over: false,
            next_move: now + MOVE_RATE,
            width,
            height,
        }
    }

    /// A game built around a given snake, for a caller that wants a known
    /// starting state: no food, not over, the first tick due at once.
    pub fn with_snake(snake: Snake, width: i32, height: i32) -> (g: Game)
        requires
            snake@.wf(),
            MIN_DIM <= width <= MAX_DIM,
            MIN_DIM <= height <= MAX_DIM,
            forall|i: int|
                0 <= i < snake@.body.len() ==> in_interior(#[trigger] snake@.body[i], width, height),
            snake@.tail matches Some(t) ==> in_interior(t, width, height),
        ensures
            g@ == (GameView {
                snake: snake@,
                has_food: false,
                food_x: 0,
                food_y: 0,
                game_over: false,
                next_move: 0,
                width,
                height,
            }),
            g@.wf(),
    {
        Game {
            snake,
            has_food: false,
            food_x: 0,
            food_y: 0,
            game_over: false,
            next_move: 0,
            width,
            height,
        }
    }

    /// Resets the game: a fresh snake, no food, the game-over flag cleared.
    /// Board dimensions and the scheduled tick are kept.
    pub fn restart(&mut self)
        requires
            old(self)@.wf(),
        ensures
            final(self)@.wf(),
            restarted(old(self)@, final(self)@),
            distinct_ok(final(self)@),
    {
        self.snake = Snake::new(SNAKE_LEN, self.width, self.height);
        self.has_food = false;
        self.game_over = false;
        proof {
            lemma_spawn_inside(self.snake@, SNAKE_LEN, self@.width, self@.height);
        }
    }

    /// Whether the snake's next head lands on its own body or on the border
    /// ring. On a collision the game is over and the next tick is pushed out
    /// by the longer grace period; otherwise nothing changes.
    pub fn detect_collision(&mut self, now: u128) -> (r: bool)
        requires
            old(self)@.wf(),
            now + GAME_OVER_RATE <= u128::MAX,
        ensures
            r == old(self)@.collides(),
            r ==> final(self)@ == (GameView {
                game_over: true,
                next_move: (now + GAME_OVER_RATE) as u128,
                ..old(self)@
            }),
            !r ==> final(self)@ == old(self)@,
            final(self)@.wf(),
    {
        proof {
            assert(in_interior(self@.snake.body[0], self@.width, self@.height));
        }
        let next_head = self.snake.get_next_head();
        if self.snake.bad_touch(&next_head) {
            self.next_move = now + GAME_OVER_RATE;
            self.game_over = true;
            return true;
        }
        if next_head.x == 0 || next_head.y == 0 || next_head.x == self.width - 1 || next_head.y
            == self.height - 1 {
            self.next_move = now + GAME_OVER_RATE;
            self.game_over = true;
            return true;
        }
        false
    }

    /// Whether the snake's next head sits exactly on the food cell.
    pub fn ate_food(&self) -> (r: bool)
        requires
            self@.wf(),
        ensures
            r == (self@.snake.next_head() == self@.food()),
    {
        proof {
            assert(in_interior(self@.snake.body[0], self@.width, self@.height));
        }
        let next_head = self.snake.get_next_head();
        next_head.x == self.food_x && next_head.y == self.food_y
    }

    /// Puts the food on a given interior cell off the snake's body and marks
    /// it present.
    pub fn place_food(&mut self, x: i32, y: i32)
        requires
            old(self)@.wf(),
            in_interior(Block { x, y }, old(self)@.width, old(self)@.height),
            !old(self)@.snake.body.contains(Block { x, y }),
        ensures
            final(self)@ == (GameView { has_food: true, food_x: x, food_y: y, ..old(self)@ }),
            final(self)@.wf(),
    {
        self.food_x = x;
        self.food_y = y;
        self.has_food = true;
    }

    /// Picks a food cell uniformly at random among the interior cells the
    /// snake does not occupy; returns nothing exactly when the snake covers
    /// the whole interior, so food is never placed on a body cell.
    pub fn make_food(&self) -> (r: Option<(i32, i32)>)
        requires
            self@.wf(),
        ensures
            r matches Some(f) ==> in_interior(Block { x: f.0, y: f.1 }, self@.width, self@.height)
                && !self@.snake.body.contains(Block { x: f.0, y: f.1 }),
            (r is None) <==> (forall|b: Block|
                in_interior(b, self@.width, self@.height) ==> self@.snake.body.contains(b)),
    {
        let w = self.width;
        let h = self.height;
        let mut free: Vec<Block> = Vec::new();
        let mut y: i32 = 1;
        while y < h - 1
            invariant
                self@.wf(),
                w == self@.width,
                h == self@.height,
                1 <= y <= h - 1,
                forall|k: int|
                    0 <= k < free@.len() ==> in_interior(#[trigger] free@[k], w, h)
                        && !self@.snake.body.contains(free@[k]),
                forall|b: Block|
                    #[trigger] in_interior(b, w, h) && b.y < y && !self@.snake.body.contains(b)
                        ==> free@.contains(b),
            decreases h - 1 - y,
        {
            let mut x: i32 = 1;
            while x < w - 1
                invariant
                    self@.wf(),
                    w == self@.width,
                    h == self@.height,
                    1 <= y <= h - 2,
                    1 <= x <= w - 1,
                    forall|k: int|
                        0 <= k < free@.len() ==> in_interior(#[trigger] free@[k], w, h)
                            && !self@.snake.body.contains(free@[k]),
                    forall|b: Block|
                        #[trigger] in_interior(b, w, h) && (b.y < y || (b.y == y && b.x < x))
                            && !self@.snake.body.contains(b) ==> free@.contains(b),
                decreases w - 1 - x,
            {
                let b = Block { x, y };
                if !self.snake.bad_touch(&b) {
                    let ghost old_free = free@;
                    free.push(b);
                    proof {
                        assert forall|c: Block| old_free.contains(c) implies free@.contains(
                            c,
                        ) by {
                            let k = choose|k: int| 0 <= k < old_free.len() && old_free[k] == c;
                            assert(free@[k] == c);
                        }
                        assert(free@[free@.len() - 1] == b);
                        assert(free@.contains(b));
                    }
                }
                x = x + 1;
            }
            y = y + 1;
        }
        if free.len() == 0 {
            proof {
                assert forall|b: Block|
                    in_interior(b, self@.width, self@.height) implies self@.snake.body.contains(
                    b,
                ) by {
                    if !self@.snake.body.contains(b) {
                        assert(free@.contains(b));
                    }
                }
            }
            None
        } else {
            let i = rand_range(0, free.len() as u64) as usize;
            let f = free[i];
            proof {
                assert(free@.contains(free@[0]));
            }
            Some((f.x, f.y))
        }
    }

    /// One frame of the simulation, gated on the clock: before the scheduled
    /// time nothing at all changes; once it is reached, the game restarts if it
    /// was over, food is placed if absent, the snake eats if the next head
    /// sits on the food, and then it either collides or moves.
    pub fn tick(&mut self, now: u128)
        requires
            old(self)@.wf(),
            now + GAME_OVER_RATE <= u128::MAX,
        ensures
            final(self)@.wf(),
            final(self)@.width == old(self)@.width,
            final(self)@.height == old(self)@.height,
            now < old(self)@.next_move ==> final(self)@ == old(self)@,
            now >= old(self)@.next_move ==> tick_rel(old(self)@, final(self)@, now),
            (now >= old(self)@.next_move && !old(self)@.game_over && old(self)@.has_food)
                ==> final(self)@ == moved(fed(old(self)@), now),
            distinct_ok(old(self)@) ==> distinct_ok(final(self)@),
    {
        if now >= self.next_move {
            let ghost pre = self@;
            if self.game_over {
                self.restart();
            }
            let ghost g1 = self@;
            proof {
                assert(restarted_rel(pre, g1));
            }
            if !self.has_food {
                match self.make_food() {
                    Some(f) => {
                        self.food_x = f.0;
                        self.food_y = f.1;
                        self.has_food = true;
                        proof {
                            assert(self@ =~= with_food(g1, f.0, f.1));
                        }
                    },
                    None => {},
                }
            }
            let ghost g2 = self@;
            proof {
                assert(placed_food(g1, g2));
                assert(g2.wf());
            }
            let ate = self.has_food && self.ate_food();
            if ate {
                self.snake.grow_snake();
                self.has_food = false;
            }
            proof {
                assert(self@ =~= fed(g2));
                assert forall|i: int| 0 <= i < self@.snake.body.len() implies in_interior(
                    #[trigger] self@.snake.body[i],
                    self@.width,
                    self@.height,
                ) by {
                    if ate && g2.snake.tail is Some && i == self@.snake.body.len() - 1 {
                        assert(self@.snake.body[i] == g2.snake.tail->0);
                    } else {
                        assert(self@.snake.body[i] == g2.snake.body[i]);
                    }
                }
                assert(self@.wf());
            }
            let ghost g3 = self@;
            self.next_move = now + MOVE_RATE;
            proof {
                assert(self@ =~= (GameView { next_move: (now + MOVE_RATE) as u128, ..g3 }));
            }
            if !self.detect_collision(now) {
                proof {
                    assert(in_interior(self@.snake.body[0], self@.width, self@.height));
                    let nh = self@.snake.next_head();
                    assert(in_interior(nh, self@.width, self@.height));
                    assert(self@.snake.body.last() == self@.snake.body[self@.snake.body.len()
                        - 1]);
                }
                let ghost g5 = self@;
                self.snake.move_snake();
                proof {
                    assert(self@ =~= (GameView { snake: g5.snake.step(), ..g5 }));
                    assert forall|i: int| 0 <= i < self@.snake.body.len() implies in_interior(
                        #[trigger] self@.snake.body[i],
                        self@.width,
                        self@.height,
                    ) by {
                        if i == 0 {
                            assert(self@.snake.body[0] == g5.snake.next_head());
                        } else {
                            assert(self@.snake.body[i] == g5.snake.body[i - 1]);
                        }
                    }
                    assert(self@.wf());
                }
            }
            proof {
                assert(self@ =~= moved(fed(g2), now));
                assert(tick_chain(pre, g1, g2, self@, now));
                if distinct_ok(pre) {
                    if pre.game_over {
                        lemma_spawn_inside(g1.snake, SNAKE_LEN, pre.width, pre.height);
                    }
                    assert(distinct_ok(g1));
                    assert(g2.snake == g1.snake && !g2.game_over);
                    let eaten = fed(g2);
                    if g2.has_food && g2.snake.next_head() == g2.food() {
                        lemma_grow_keeps_distinct(g2.snake);
                    }
                    assert(distinct_cells(eaten.snake.body));
                    if !(GameView { next_move: (now + MOVE_RATE) as u128, ..eaten }).collides() {
                        lemma_step_keeps_distinct(eaten.snake);
                    }
                    assert(distinct_ok(self@));
                }
            }
        }
    }

    /// Hands a direction request to the snake; the request is ignored
    /// exactly when it is the opposite of the current heading. Nothing else
    /// of the game changes.
    pub fn key_pressed(&mut self, dir: Direction)
        requires
            old(self)@.wf(),
        ensures
            final(self)@ == (GameView {
                snake: SnakeView {
                    dir: spec_new_direction(old(self)@.snake.dir, dir),
                    ..old(self)@.snake
                },
                ..old(self)@
            }),
            final(self)@.wf(),
    {
        self.snake.new_direction(dir);
        proof {
            assert(self@ =~= (GameView {
                snake: SnakeView {
                    dir: spec_new_direction(old(self)@.snake.dir, dir),
                    ..old(self)@.snake
                },
                ..old(self)@
            }));
        }
    }

    /// The board width, in cells.
    pub fn width(&self) -> (w: i32)
        ensures
            w == self@.width,
    {
        self.width
    }

    /// The board height, in cells.
    pub fn height(&self) -> (h: i32)
        ensures
            h == self@.height,
    {
        self.height
    }

    /// Whether the game is over.
    pub fn is_game_over(&self) -> (r: bool)
        ensures
            r == self@.game_over,
    {
        self.game_over
    }

    /// Whether food is currently placed.
    pub fn has_food(&self) -> (r: bool)
        ensures
            r == self@.has_food,
    {
        self.has_food
    }

    /// The food cell's coordinates, meaningful while food is present.
    pub fn food(&self) -> (f: (i32, i32))
        ensures
            f.0 == self@.food_x,
            f.1 == self@.food_y,
    {
        (self.food_x, self.food_y)
    }

    /// When the next tick is due, in milliseconds.
    pub fn next_move(&self) -> (t: u128)
        ensures
            t == self@.next_move,
    {
        self.next_move
    }

    /// The snake, for reading.
    pub fn snake(&self) -> (s: &Snake)
        ensures
            s@ == self@.snake,
    {
        &self.snake
    }
}

} // verus!
