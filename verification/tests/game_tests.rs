use snake_core::game::Game;
use snake_core::game::GAME_OVER_RATE;
use snake_core::game::MOVE_RATE;
use snake_core::snake::Block;
use snake_core::snake::Direction;
use snake_core::snake::Snake;

#[test]
fn new_game_starts_running_without_food() {
    let g = Game::new(30, 30, 1000);
    assert_eq!(g.width(), 30);
    assert_eq!(g.height(), 30);
    assert!(!g.is_game_over());
    assert!(!g.has_food());
    assert_eq!(g.food(), (0, 0));
    assert_eq!(g.next_move(), 1000 + MOVE_RATE);
    assert_eq!(g.snake().len(), 3);
}

#[test]
fn tick_before_deadline_changes_nothing() {
    let s = Snake::from_parts(4, 4, 3, Direction::UP);
    let mut g = Game::with_snake(s, 9, 9);
    g.place_food(7, 7);
    g.tick(1);
    assert_eq!(g.snake().head(), Block { x: 4, y: 3 });
    assert_eq!(g.next_move(), 1 + MOVE_RATE);
    // Strictly before the deadline: a pure idle frame.
    g.tick(MOVE_RATE);
    assert!(!g.is_game_over());
    assert_eq!(g.snake().len(), 3);
    assert_eq!(g.snake().head(), Block { x: 4, y: 3 });
    assert_eq!(g.next_move(), 1 + MOVE_RATE);
}

#[test]
fn tick_at_the_deadline_fires() {
    let s = Snake::from_parts(4, 4, 3, Direction::UP);
    let mut g = Game::with_snake(s, 9, 9);
    g.place_food(7, 7);
    // The first tick is due at time 0 exactly.
    g.tick(0);
    assert_eq!(g.snake().head(), Block { x: 4, y: 3 });
    g.tick(MOVE_RATE);
    assert_eq!(g.snake().head(), Block { x: 4, y: 2 });
}

#[test]
fn tick_moves_the_snake_and_reschedules() {
    let s = Snake::from_parts(4, 4, 3, Direction::UP);
    let mut g = Game::with_snake(s, 9, 9);
    g.place_food(7, 7);
    g.tick(1);
    assert!(!g.is_game_over());
    assert_eq!(g.snake().len(), 3);
    assert_eq!(g.snake().head(), Block { x: 4, y: 3 });
    assert_eq!(g.next_move(), 1 + MOVE_RATE);
}

#[test]
fn eating_grows_by_one_and_consumes_the_food() {
    let s = Snake::from_parts(4, 4, 3, Direction::UP);
    let mut g = Game::with_snake(s, 9, 9);
    g.place_food(7, 7);
    g.tick(1);
    // The snake has moved once, so a dropped tail is retained; force the
    // next head onto the food.
    assert_eq!(g.snake().get_next_head(), Block { x: 4, y: 2 });
    g.place_food(4, 2);
    g.tick(1 + MOVE_RATE + 1);
    assert!(!g.is_game_over());
    assert!(!g.has_food());
    assert_eq!(g.snake().len(), 4);
    assert_eq!(g.snake().head(), Block { x: 4, y: 2 });
}

#[test]
fn border_collision_ends_the_game_without_moving() {
    // Head at (1, 5) heading LEFT: the next head (0, 5) is on the ring.
    let s = Snake::from_parts(1, 5, 3, Direction::LEFT);
    let mut g = Game::with_snake(s, 9, 9);
    g.tick(1);
    assert!(g.is_game_over());
    assert_eq!(g.snake().len(), 3);
    assert_eq!(g.snake().head(), Block { x: 1, y: 5 });
    assert_eq!(g.next_move(), 1 + GAME_OVER_RATE);
}

#[test]
fn self_collision_ends_the_game() {
    // A straight snake turned back into its own second cell by two turns.
    let s = Snake::from_parts(4, 4, 4, Direction::UP);
    let mut g = Game::with_snake(s, 12, 12);
    g.place_food(10, 10);
    g.tick(1);
    g.key_pressed(Direction::LEFT);
    g.tick(1 + MOVE_RATE + 1);
    g.key_pressed(Direction::DOWN);
    g.tick(1 + 2 * (MOVE_RATE + 1));
    g.key_pressed(Direction::RIGHT);
    // The next head now lands back on the body.
    g.tick(1 + 3 * (MOVE_RATE + 1));
    assert!(g.is_game_over());
}

#[test]
fn grace_period_then_restart_with_fresh_snake() {
    let s = Snake::from_parts(1, 5, 3, Direction::LEFT);
    let mut g = Game::with_snake(s, 9, 9);
    g.tick(1);
    assert!(g.is_game_over());
    let over_until = g.next_move();
    assert_eq!(over_until, 1 + GAME_OVER_RATE);
    // Within the grace period nothing changes.
    g.tick(over_until - 1);
    assert!(g.is_game_over());
    // At its end, the game restarts: a fresh snake, the flag cleared.
    g.tick(over_until);
    assert!(!g.is_game_over());
    assert_eq!(g.snake().len(), 3);
    for i in 0..g.snake().len() {
        let b = g.snake().segment(i);
        assert!(1 <= b.x && b.x <= 7 && 1 <= b.y && b.y <= 7);
    }
}

#[test]
fn restart_clears_food_and_game_over() {
    let s = Snake::from_parts(1, 5, 3, Direction::LEFT);
    let mut g = Game::with_snake(s, 9, 9);
    g.place_food(7, 7);
    let collided = g.detect_collision(5);
    assert!(collided);
    assert!(g.is_game_over());
    assert_eq!(g.next_move(), 5 + GAME_OVER_RATE);
    g.restart();
    assert!(!g.is_game_over());
    assert!(!g.has_food());
    assert_eq!(g.snake().len(), 3);
}

#[test]
fn detect_collision_is_false_in_the_open() {
    let s = Snake::from_parts(4, 4, 3, Direction::UP);
    let mut g = Game::with_snake(s, 9, 9);
    assert!(!g.detect_collision(5));
    assert!(!g.is_game_over());
    assert_eq!(g.snake().len(), 3);
}

#[test]
fn ate_food_compares_next_head_with_food() {
    let s = Snake::from_parts(4, 4, 3, Direction::UP);
    let mut g = Game::with_snake(s, 9, 9);
    g.place_food(4, 3);
    assert!(g.ate_food());
    g.place_food(5, 3);
    assert!(!g.ate_food());
}

#[test]
fn food_is_never_placed_on_the_snake() {
    let s = Snake::from_parts(4, 4, 5, Direction::UP);
    let g = Game::with_snake(s, 11, 11);
    for _ in 0..50 {
        let f = g.make_food().expect("the board has free cells");
        let cell = Block { x: f.0, y: f.1 };
        assert!(!g.snake().bad_touch(&cell));
        assert!(1 <= cell.x && cell.x <= 9 && 1 <= cell.y && cell.y <= 9);
    }
}

#[test]
fn first_fired_tick_places_food_off_the_body() {
    // The next head sits on the ring, so the snake cannot move or eat this
    // tick: the freshly placed food must survive, inside and off the body.
    let s = Snake::from_parts(1, 5, 3, Direction::LEFT);
    let mut g = Game::with_snake(s, 9, 9);
    g.tick(1);
    assert!(g.has_food());
    let f = g.food();
    let cell = Block { x: f.0, y: f.1 };
    assert!(1 <= cell.x && cell.x <= 7 && 1 <= cell.y && cell.y <= 7);
    assert!(!g.snake().bad_touch(&cell));
}

#[test]
fn key_presses_steer_but_never_reverse() {
    let s = Snake::from_parts(4, 4, 3, Direction::UP);
    let mut g = Game::with_snake(s, 9, 9);
    g.key_pressed(Direction::DOWN);
    assert_eq!(g.snake().direction(), Direction::UP);
    g.key_pressed(Direction::RIGHT);
    assert_eq!(g.snake().direction(), Direction::RIGHT);
    g.key_pressed(Direction::LEFT);
    assert_eq!(g.snake().direction(), Direction::RIGHT);
}
