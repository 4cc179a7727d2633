use snake_core::snake::Block;
use snake_core::snake::Direction;
use snake_core::snake::Snake;

fn body_of(s: &Snake) -> Vec<Block> {
    let mut v = Vec::new();
    let mut i = 0;
    while i < s.len() {
        v.push(s.segment(i));
        i += 1;
    }
    v
}

#[test]
fn opposite_pairs() {
    assert_eq!(Direction::UP.opposite(), Direction::DOWN);
    assert_eq!(Direction::DOWN.opposite(), Direction::UP);
    assert_eq!(Direction::LEFT.opposite(), Direction::RIGHT);
    assert_eq!(Direction::RIGHT.opposite(), Direction::LEFT);
}

#[test]
fn direction_of_index_covers_all_four() {
    assert_eq!(snake_core::snake::direction_of_index(0), Direction::UP);
    assert_eq!(snake_core::snake::direction_of_index(1), Direction::RIGHT);
    assert_eq!(snake_core::snake::direction_of_index(2), Direction::DOWN);
    assert_eq!(snake_core::snake::direction_of_index(3), Direction::LEFT);
}

#[test]
fn from_parts_lays_out_trailing_body() {
    let s = Snake::from_parts(4, 4, 3, Direction::UP);
    assert_eq!(s.len(), 3);
    assert_eq!(s.direction(), Direction::UP);
    assert_eq!(body_of(&s), vec![
        Block { x: 4, y: 4 },
        Block { x: 4, y: 5 },
        Block { x: 4, y: 6 },
    ]);

    let s = Snake::from_parts(10, 7, 4, Direction::RIGHT);
    assert_eq!(body_of(&s), vec![
        Block { x: 10, y: 7 },
        Block { x: 9, y: 7 },
        Block { x: 8, y: 7 },
        Block { x: 7, y: 7 },
    ]);
}

#[test]
fn spawn_has_unique_cells_strictly_inside() {
    // Smallest board the spawn window allows, and an ordinary one.
    for (w, h) in [(9, 9), (30, 30), (9, 40)] {
        for _ in 0..20 {
            let s = Snake::new(3, w, h);
            let body = body_of(&s);
            assert_eq!(body.len(), 3);
            for b in &body {
                assert!(1 <= b.x && b.x <= w - 2, "x off the board: {:?}", b);
                assert!(1 <= b.y && b.y <= h - 2, "y off the board: {:?}", b);
            }
            for i in 0..body.len() {
                for j in 0..i {
                    assert_ne!(body[i], body[j]);
                }
            }
        }
    }
}

#[test]
fn new_direction_rejects_only_the_opposite() {
    let mut s = Snake::from_parts(5, 5, 3, Direction::UP);
    s.new_direction(Direction::DOWN);
    assert_eq!(s.direction(), Direction::UP);
    s.new_direction(Direction::UP);
    assert_eq!(s.direction(), Direction::UP);
    s.new_direction(Direction::LEFT);
    assert_eq!(s.direction(), Direction::LEFT);
    s.new_direction(Direction::LEFT);
    assert_eq!(s.direction(), Direction::LEFT);
    s.new_direction(Direction::RIGHT);
    assert_eq!(s.direction(), Direction::LEFT);
    s.new_direction(Direction::DOWN);
    assert_eq!(s.direction(), Direction::DOWN);
}

#[test]
fn move_keeps_length_and_grow_restores_dropped_tail() {
    let mut s = Snake::from_parts(5, 5, 3, Direction::UP);
    let pre_tail = s.segment(s.len() - 1);
    assert_eq!(pre_tail, Block { x: 5, y: 7 });

    s.move_snake();
    assert_eq!(s.len(), 3);
    assert_eq!(s.head(), Block { x: 5, y: 4 });

    s.grow_snake();
    assert_eq!(s.len(), 4);
    assert_eq!(s.segment(3), pre_tail);
}

#[test]
fn grow_before_any_move_is_a_no_op() {
    let mut s = Snake::from_parts(5, 5, 3, Direction::LEFT);
    s.grow_snake();
    assert_eq!(s.len(), 3);
}

#[test]
fn bad_touch_is_body_membership() {
    let s = Snake::from_parts(5, 5, 3, Direction::UP);
    for b in body_of(&s) {
        assert!(s.bad_touch(&b));
    }
    // The cell straight ahead of the head does not overlap the body.
    let ahead = s.get_next_head();
    assert_eq!(ahead, Block { x: 5, y: 4 });
    assert!(!s.bad_touch(&ahead));
    assert!(!s.bad_touch(&Block { x: 6, y: 5 }));
}

#[test]
fn next_head_is_pure_and_one_step_ahead() {
    let s = Snake::from_parts(5, 5, 3, Direction::RIGHT);
    let a = s.get_next_head();
    let b = s.get_next_head();
    assert_eq!(a, Block { x: 6, y: 5 });
    assert_eq!(a, b);
    assert_eq!(s.len(), 3);
    assert_eq!(s.head(), Block { x: 5, y: 5 });
}
