//! The snake itself: a non-empty run of grid cells, a heading, and the most
//! recently dropped tail cell (kept so the snake can regrow after eating).
use vstd::prelude::*;

use std::collections::VecDeque;

use crate::host::rand_range;

verus! {

/// A heading on the grid.
#[allow(non_camel_case_types)]
#[derive(Copy, Clone, PartialEq, Eq, Structural, Debug)]
pub enum Direction {
    UP,
    DOWN,
    LEFT,
    RIGHT,
}

impl Direction {
    /// The heading that points the other way.
    pub open spec fn spec_opposite(self) -> Direction {
        match self {
            Direction::UP => Direction::DOWN,
            Direction::DOWN => Direction::UP,
            Direction::LEFT => Direction::RIGHT,
            Direction::RIGHT => Direction::LEFT,
        }
    }

    /// Check to prevent the snake from doubling back on itself.
    pub fn opposite(&self) -> (r: Direction)
        ensures
            r == self.spec_opposite(),
    {
        match self {
            Direction::UP => Direction::DOWN,
            Direction::DOWN => Direction::UP,
            Direction::LEFT => Direction::RIGHT,
            Direction::RIGHT => Direction::LEFT,
        }
    }
}

/// A cell strictly inside the border ring of a `w` by `h` board.
pub open spec fn in_interior(b: Block, w: i32, h: i32) -> bool {
    1 <= b.x <= w - 2 && 1 <= b.y <= h - 2
}

/// The heading a uniformly drawn index in 0..4 stands for.
pub open spec fn spec_direction_of_index(i: int) -> Direction {
    if i == 0 {
        Direction::UP
    } else if i == 1 {
        Direction::RIGHT
    } else if i == 2 {
        Direction::DOWN
    } else {
        Direction::LEFT
    }
}

/// Turns a drawn index into a heading; every heading is reached.
pub fn direction_of_index(i: u64) -> (d: Direction)
    ensures
        d == spec_direction_of_index(i as int),
{
    if i == 0 {
        Direction::UP
    } else if i == 1 {
        Direction::RIGHT
    } else if i == 2 {
        Direction::DOWN
    } else {
        Direction::LEFT
    }
}

/// One grid cell; a value type with no identity beyond its coordinates.
#[derive(Copy, Clone, PartialEq, Eq, Structural, Debug)]
pub struct Block {
    pub x: i32,
    pub y: i32,
}

/// The mathematical model of a snake: its cells from head to tail, its
/// heading, and the cell most recently dropped off the tail, if any.
#[verifier::ext_equal]
pub ghost struct SnakeView {
    pub body: Seq<Block>,
    pub dir: Direction,
    pub tail: Option<Block>,
}

/// Cell `i` of a body whose head starts at (`sx`, `sy`): offset `i` cells
/// from the start, opposite to the direction of travel.
pub open spec fn spec_segment(sx: i32, sy: i32, dir: Direction, i: int) -> Block {
    match dir {
        Direction::UP => Block { x: sx, y: (sy + i) as i32 },
        Direction::DOWN => Block { x: sx, y: (sy - i) as i32 },
        Direction::LEFT => Block { x: (sx + i) as i32, y: sy },
        Direction::RIGHT => Block { x: (sx - i) as i32, y: sy },
    }
}

/// The whole freshly laid-out body, head first.
pub open spec fn spec_body_seq(sx: i32, sy: i32, len: i32, dir: Direction) -> Seq<Block> {
    Seq::new(len as nat, |i: int| spec_segment(sx, sy, dir, i))
}

/// Pairwise distinct cells: no grid cell appears twice.
pub open spec fn distinct_cells(b: Seq<Block>) -> bool {
    forall|i: int, j: int| 0 <= i < j < b.len() ==> b[i] != b[j]
}

/// The heading that a direction-change request settles on: the request,
/// unless it is the exact opposite of the current heading.
pub open spec fn spec_new_direction(cur: Direction, req: Direction) -> Direction {
    if req == cur.spec_opposite() {
        cur
    } else {
        req
    }
}

impl SnakeView {
    /// A snake is well formed when it has at least one cell.
    pub open spec fn wf(self) -> bool {
        self.body.len() > 0
    }

    /// The head cell can take one step in any direction without leaving i32.
    pub open spec fn step_room(self) -> bool {
        &&& i32::MIN < self.body[0].x < i32::MAX
        &&& i32::MIN < self.body[0].y < i32::MAX
    }

    /// Where the head will be after one step in the current heading.
    pub open spec fn next_head(self) -> Block {
        let h = self.body[0];
        match self.dir {
            Direction::UP => Block { x: h.x, y: (h.y - 1) as i32 },
            Direction::DOWN => Block { x: h.x, y: (h.y + 1) as i32 },
            Direction::RIGHT => Block { x: (h.x + 1) as i32, y: h.y },
            Direction::LEFT => Block { x: (h.x - 1) as i32, y: h.y },
        }
    }

    /// One step: the new head is pushed on, the last cell comes off and is
    /// retained as the tail.
    pub open spec fn step(self) -> SnakeView {
        SnakeView {
            body: seq![self.next_head()] + self.body.drop_last(),
            dir: self.dir,
            tail: Some(self.body.last()),
        }
    }

    /// Regrowth: the retained tail, if any, is put back on the end.
    pub open spec fn grown(self) -> SnakeView {
        match self.tail {
            Some(t) => SnakeView { body: self.body.push(t), dir: self.dir, tail: self.tail },
            None => self,
        }
    }

    /// A body as `Snake::new` lays it out: some start cell in the sampling
    /// window, the rest of the cells trailing opposite the heading.
    pub open spec fn spawned(self, len: i32, w: i32, h: i32) -> bool {
        &&& exists|sx: i32, sy: i32|
            len + 2 <= sx <= w - 4 && len + 2 <= sy <= h - 4 && self.body == spec_body_seq(
                sx,
                sy,
                len,
                self.dir,
            )
        &&& self.tail is None
    }
}

/// The cells of a freshly laid-out body: exactly `len` of them, pairwise
/// distinct, each coordinate within `len - 1` of the start cell.
pub proof fn lemma_body_seq_cells(sx: i32, sy: i32, len: i32, dir: Direction)
    requires
        1 <= len,
        sx + len <= i32::MAX,
        sx - len >= i32::MIN,
        sy + len <= i32::MAX,
        sy - len >= i32::MIN,
    ensures
        spec_body_seq(sx, sy, len, dir).len() == len,
        forall|i: int, j: int|
            0 <= i < j < len ==> spec_body_seq(sx, sy, len, dir)[i] != spec_body_seq(
                sx,
                sy,
                len,
                dir,
            )[j],
        forall|i: int|
            0 <= i < len ==> sx - (len - 1) <= (#[trigger] spec_body_seq(sx, sy, len, dir)[i]).x
                <= sx + (len - 1) && sy - (len - 1) <= spec_body_seq(sx, sy, len, dir)[i].y <= sy
                + (len - 1),
{
    assert forall|i: int| 0 <= i < len implies sx - (len - 1) <= (#[trigger] spec_body_seq(
        sx,
        sy,
        len,
        dir,
    )[i]).x <= sx + (len - 1) && sy - (len - 1) <= spec_body_seq(sx, sy, len, dir)[i].y <= sy + (len
        - 1) by {
        match dir {
            Direction::UP => assert(spec_body_seq(sx, sy, len, dir)[i].y == sy + i),
            Direction::DOWN => assert(spec_body_seq(sx, sy, len, dir)[i].y == sy - i),
            Direction::LEFT => assert(spec_body_seq(sx, sy, len, dir)[i].x == sx + i),
            Direction::RIGHT => assert(spec_body_seq(sx, sy, len, dir)[i].x == sx - i),
        }
    }
    assert forall|i: int, j: int| 0 <= i < j < len implies spec_body_seq(sx, sy, len, dir)[i]
        != spec_body_seq(sx, sy, len, dir)[j] by {
        match dir {
            Direction::UP => {
                assert(spec_body_seq(sx, sy, len, dir)[i].y == sy + i);
                assert(spec_body_seq(sx, sy, len, dir)[j].y == sy + j);
            },
            Direction::DOWN => {
                assert(spec_body_seq(sx, sy, len, dir)[i].y == sy - i);
                assert(spec_body_seq(sx, sy, len, dir)[j].y == sy - j);
            },
            Direction::LEFT => {
                assert(spec_body_seq(sx, sy, len, dir)[i].x == sx + i);
                assert(spec_body_seq(sx, sy, len, dir)[j].x == sx + j);
            },
            Direction::RIGHT => {
                assert(spec_body_seq(sx, sy, len, dir)[i].x == sx - i);
                assert(spec_body_seq(sx, sy, len, dir)[j].x == sx - j);
            },
        }
    }
}

/// Law: a snake spawned with at most three cells on a board that leaves the
/// sampling window non-empty has exactly `len` pairwise distinct cells, all
/// strictly inside the border ring.
pub proof fn lemma_spawn_inside(s: SnakeView, len: i32, w: i32, h: i32)
    requires
        s.spawned(len, w, h),
        s.body.len() == len,
        1 <= len <= 3,
        len + 2 < w - 3,
        len + 2 < h - 3,
        w <= 0x3fff_ffff,
        h <= 0x3fff_ffff,
    ensures
        s.body.len() == len,
        forall|i: int, j: int| 0 <= i < j < len ==> s.body[i] != s.body[j],
        forall|i: int| 0 <= i < len ==> in_interior(#[trigger] s.body[i], w, h),
{
    let (sx, sy) = choose|sx: i32, sy: i32|
        len + 2 <= sx <= w - 4 && len + 2 <= sy <= h - 4 && s.body == spec_body_seq(
            sx,
            sy,
            len,
            s.dir,
        );
    lemma_body_seq_cells(sx, sy, len, s.dir);
}

/// Law: a freshly spawned snake can always take its first step: the cell
/// ahead of its head is strictly inside the border ring and off its body,
/// so the step cannot collide.
pub proof fn lemma_spawn_next_head_free(s: SnakeView, len: i32, w: i32, h: i32)
    requires
        s.spawned(len, w, h),
        s.body.len() == len,
        1 <= len,
        len + 2 < w - 3,
        len + 2 < h - 3,
        w <= 0x3fff_ffff,
        h <= 0x3fff_ffff,
    ensures
        in_interior(s.next_head(), w, h),
        !s.body.contains(s.next_head()),
{
    let (sx, sy) = choose|sx: i32, sy: i32|
        len + 2 <= sx <= w - 4 && len + 2 <= sy <= h - 4 && s.body == spec_body_seq(
            sx,
            sy,
            len,
            s.dir,
        );
    assert(s.body[0] == spec_segment(sx, sy, s.dir, 0));
    let nh = s.next_head();
    assert forall|k: int| 0 <= k < len implies s.body[k] != nh by {
        assert(s.body[k] == spec_segment(sx, sy, s.dir, k));
        match s.dir {
            Direction::UP => {
                assert(s.body[k].y == sy + k);
                assert(nh.y == sy - 1);
            },
            Direction::DOWN => {
                assert(s.body[k].y == sy - k);
                assert(nh.y == sy + 1);
            },
            Direction::LEFT => {
                assert(s.body[k].x == sx + k);
                assert(nh.x == sx - 1);
            },
            Direction::RIGHT => {
                assert(s.body[k].x == sx - k);
                assert(nh.x == sx + 1);
            },
        }
    }
}

/// Law: a direction request is refused exactly when it is the opposite of
/// the current heading, and repeating the same request settles nothing new.
pub proof fn lemma_new_direction_filter(cur: Direction, req: Direction)
    ensures
        spec_new_direction(spec_new_direction(cur, req), req) == spec_new_direction(cur, req),
        req == cur.spec_opposite() ==> spec_new_direction(cur, req) == cur,
        req != cur.spec_opposite() ==> spec_new_direction(cur, req) == req,
{
}

/// Law: a step keeps the body cells pairwise distinct, provided the incoming
/// head does not land on the body — exactly what the collision check rules
/// out before a move — and the retained tail never sits on the stepped body.
pub proof fn lemma_step_keeps_distinct(s: SnakeView)
    requires
        s.wf(),
        distinct_cells(s.body),
        !s.body.contains(s.next_head()),
    ensures
        distinct_cells(s.step().body),
        s.step().tail matches Some(t) && !s.step().body.contains(t),
{
    let nb = s.step().body;
    assert forall|i: int, j: int| 0 <= i < j < nb.len() implies nb[i] != nb[j] by {
        if i == 0 {
            assert(nb[j] == s.body[j - 1]);
            if nb[j] == s.next_head() {
                assert(s.body[j - 1] == s.next_head());
                assert(s.body.contains(s.next_head()));
            }
        } else {
            assert(nb[i] == s.body[i - 1]);
            assert(nb[j] == s.body[j - 1]);
        }
    }
    let t = s.body.last();
    assert forall|k: int| 0 <= k < nb.len() implies nb[k] != t by {
        if k == 0 {
            if nb[0] == t {
                assert(s.body[s.body.len() - 1] == s.next_head());
                assert(s.body.contains(s.next_head()));
            }
        } else {
            assert(nb[k] == s.body[k - 1]);
        }
    }
}

/// Law: regrowth keeps the body cells pairwise distinct, provided the
/// retained tail does not sit on the body — which a step just established.
pub proof fn lemma_grow_keeps_distinct(s: SnakeView)
    requires
        distinct_cells(s.body),
        s.tail matches Some(t) ==> !s.body.contains(t),
    ensures
        distinct_cells(s.grown().body),
{
    let nb = s.grown().body;
    assert forall|i: int, j: int| 0 <= i < j < nb.len() implies nb[i] != nb[j] by {
        match s.tail {
            Some(t) => {
                if j == s.body.len() {
                    assert(nb[i] == s.body[i]);
                    if nb[i] == t {
                        assert(s.body.contains(t));
                    }
                } else {
                    assert(nb[i] == s.body[i]);
                    assert(nb[j] == s.body[j]);
                }
            },
            None => {},
        }
    }
}

/// Law: a step keeps the body length; regrowing right after a step adds
/// exactly one cell, and the cell added is the tail the step dropped, which
/// is the last cell of the pre-step body.
pub proof fn lemma_step_then_grow(s: SnakeView)
    requires
        s.wf(),
    ensures
        s.step().body.len() == s.body.len(),
        s.step().grown().body.len() == s.body.len() + 1,
        s.step().grown().body.last() == s.body.last(),
{
}

pub struct Snake {
    body: VecDeque<Block>,
    dir: Direction,
    tail: Option<Block>,
}

impl View for Snake {
    type V = SnakeView;

    closed spec fn view(&self) -> SnakeView {
        SnakeView { body: self.body@, dir: self.dir, tail: self.tail }
    }
}

impl Snake {
    /// Builds the snake deterministically from a start cell, a length and a
    /// heading: cell `i` sits `i` cells behind the start, against the heading.
    pub fn from_parts(start_x: i32, start_y: i32, len: i32, dir: Direction) -> (s: Snake)
        requires
            1 <= len,
            start_x + len <= i32::MAX,
            start_x - len >= i32::MIN,
            start_y + len <= i32::MAX,
            start_y - len >= i32::MIN,
        ensures
            s@.body == spec_body_seq(start_x, start_y, len, dir),
            s@.body.len() == len as int,
            s@.dir == dir,
            s@.tail is None,
    {
        let mut body: VecDeque<Block> = VecDeque::new();
        let mut i: i32 = 0;
        while i < len
            invariant
                0 <= i <= len,
                start_x + len <= i32::MAX,
                start_x - len >= i32::MIN,
                start_y + len <= i32::MAX,
                start_y - len >= i32::MIN,
                body@.len() == i as int,
                forall|j: int| 0 <= j < i ==> body@[j] == spec_segment(start_x, start_y, dir, j),
            decreases len - i,
        {
            let b = match dir {
                Direction::UP => Block { x: start_x, y: start_y + i },
                Direction::DOWN => Block { x: start_x, y: start_y - i },
                Direction::LEFT => Block { x: start_x + i, y: start_y },
                Direction::RIGHT => Block { x: start_x - i, y: start_y },
            };
            body.push_back(b);
            i = i + 1;
        }
        proof {
            assert(body@ =~= spec_body_seq(start_x, start_y, len, dir));
        }
        Snake { body, dir, tail: None }
    }

    /// A new snake: a random heading, then a random start cell in the window
    /// `[len + 2, dim - 4]` on each axis, the body trailing behind.
    pub fn new(len: i32, width: i32, height: i32) -> (s: Snake)
        requires
            1 <= len,
            len + 2 < width - 3,
            len + 2 < height - 3,
            width <= 0x3fff_ffff,
            height <= 0x3fff_ffff,
        ensures
            s@.wf(),
            s@.body.len() == len as int,
            s@.spawned(len, width, height),
            distinct_cells(s@.body),
    {
        let dir = Snake::make_direction();
        let start_x = rand_range((len + 2) as u64, (width - 3) as u64) as i32;
        let start_y = rand_range((len + 2) as u64, (height - 3) as u64) as i32;
        let s = Snake::from_parts(start_x, start_y, len, dir);
        proof {
            assert(len + 2 <= start_x <= width - 4 && len + 2 <= start_y <= height - 4
                && s@.body == spec_body_seq(start_x, start_y, len, s@.dir));
            lemma_body_seq_cells(start_x, start_y, len, dir);
        }
        s
    }

    /// Draws a heading uniformly from the four options.
    fn make_direction() -> Direction {
        let i = rand_range(0, 4);
        direction_of_index(i)
    }

    /// Determines whether the snake occupies the given cell: true exactly
    /// when some body segment has the same coordinates.
    pub fn bad_touch(&self, head: &Block) -> (r: bool)
        ensures
            r == self@.body.contains(*head),
    {
        let n = self.body.len();
        let mut i: usize = 0;
        while i < n
            invariant
                0 <= i <= n,
                n == self@.body.len(),
                forall|j: int| 0 <= j < i ==> self@.body[j] != *head,
            decreases n - i,
        {
            let block = self.body[i];
            if block.x == head.x && block.y == head.y {
                return true;
            }
            i = i + 1;
        }
        false
    }

    /// Where the snake will be next: one step ahead of the head, in the
    /// current heading. Pure; never touches the snake.
    pub fn get_next_head(&self) -> (r: Block)
        requires
            self@.wf(),
            self@.step_room(),
        ensures
            r == self@.next_head(),
    {
        let old_head = self.body[0];
        match self.dir {
            Direction::UP => Block { x: old_head.x, y: old_head.y - 1 },
            Direction::DOWN => Block { x: old_head.x, y: old_head.y + 1 },
            Direction::RIGHT => Block { x: old_head.x + 1, y: old_head.y },
            Direction::LEFT => Block { x: old_head.x - 1, y: old_head.y },
        }
    }

    /// Moves the snake one step: the next head goes on the front, the last
    /// cell comes off the back and is retained. Length never changes.
    pub fn move_snake(&mut self)
        requires
            old(self)@.wf(),
            old(self)@.step_room(),
        ensures
            final(self)@ == old(self)@.step(),
            final(self)@.body.len() == old(self)@.body.len(),
    {
        let ghost pre = self@;
        let head = self.get_next_head();
        self.body.push_front(head);
        self.tail = self.body.pop_back();
        proof {
            assert(self@.body =~= pre.step().body);
            assert(self@ =~= pre.step());
        }
    }

    /// Adds the retained tail back to the end of the snake; does nothing if
    /// no tail has been recorded yet.
    pub fn grow_snake(&mut self)
        ensures
            final(self)@ == old(self)@.grown(),
    {
        match self.tail {
            Some(t) => self.body.push_back(t),
            None => (),
        }
    }

    /// Updates the heading, unless the request is the exact opposite of the
    /// current heading, which is silently ignored.
    pub fn new_direction(&mut self, dir: Direction)
        ensures
            final(self)@.dir == spec_new_direction(old(self)@.dir, dir),
            final(self)@.body == old(self)@.body,
            final(self)@.tail == old(self)@.tail,
    {
        if self.dir.opposite() == dir {
            return ;
        }
        self.dir = dir;
    }

    /// How many cells the snake occupies.
    pub fn len(&self) -> (n: usize)
        ensures
            n == self@.body.len(),
    {
        self.body.len()
    }

    /// The head cell.
    pub fn head(&self) -> (b: Block)
        requires
            self@.wf(),
        ensures
            b == self@.body[0],
    {
        self.body[0]
    }

    /// Body cell `i`, counted from the head.
    pub fn segment(&self, i: usize) -> (b: Block)
        requires
            i < self@.body.len(),
        ensures
            b == self@.body[i as int],
    {
        self.body[i]
    }

    /// The current heading.
    pub fn direction(&self) -> (d: Direction)
        ensures
            d == self@.dir,
    {
        self.dir
    }
}

} // verus!
