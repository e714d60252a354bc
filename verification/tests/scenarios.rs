use snake::is_blocked;
use snake::Clock;
use snake::Grid;
use snake::Heading;
use snake::Outcome;
use snake::Position;
use snake::Session;
use snake::Snake;
use snake::Status;

fn pos(x: i32, y: i32) -> Position {
    Position { x, y }
}

fn board() -> Grid {
    Grid::new(12, 12).expect("a 12 by 12 board exists")
}

fn session(cells: &[(i32, i32)], heading: Heading, food: (i32, i32)) -> Session {
    let body: Vec<Position> = cells.iter().map(|&(x, y)| pos(x, y)).collect();
    let snake = Snake::new(board(), body, heading).expect("the cells form a snake");
    Session::new(snake, Some(pos(food.0, food.1)), Clock::new(1)).expect("the food lies free")
}

#[test]
fn plain_move_slides_the_body() {
    let mut s = session(&[(0, 0), (0, 1), (0, 2)], Heading::Up, (5, 5));
    assert_eq!(s.snake().candidate_head(Heading::Up), pos(0, 3));
    assert_eq!(s.step(0), Outcome::Moved);
    assert_eq!(s.snake().body(), &vec![pos(0, 1), pos(0, 2), pos(0, 3)]);
    assert_eq!(s.food(), Some(pos(5, 5)));
    assert_eq!(s.status(), Status::Running);
}

#[test]
fn plain_move_with_random_draw_slides_the_body() {
    let mut s = session(&[(0, 0), (0, 1), (0, 2)], Heading::Up, (5, 5));
    assert_eq!(s.tick(), Outcome::Moved);
    assert_eq!(s.snake().body(), &vec![pos(0, 1), pos(0, 2), pos(0, 3)]);
    assert_eq!(s.food(), Some(pos(5, 5)));
}

#[test]
fn eating_grows_and_moves_the_food() {
    let mut s = session(&[(0, 0), (0, 1), (0, 2)], Heading::Up, (0, 3));
    assert_eq!(s.tick(), Outcome::Ate);
    assert_eq!(
        s.snake().body(),
        &vec![pos(0, 0), pos(0, 1), pos(0, 2), pos(0, 3)]
    );
    let food = s.food().expect("the board has free cells left");
    assert_ne!(food, pos(0, 3));
    assert!(s.grid().contains(food));
    assert!(!s.snake().body().contains(&food));
}

#[test]
fn eating_with_a_fixed_draw_puts_food_on_the_chosen_free_cell() {
    let mut s = session(&[(0, 0), (0, 1), (0, 2)], Heading::Up, (0, 3));
    // Free cells in scan order after growth: (0,4), (0,5), ...
    assert_eq!(s.step(1), Outcome::Ate);
    assert_eq!(s.food(), Some(pos(0, 5)));
    assert_eq!(s.snake().len(), 4);
}

#[test]
fn wall_blocks_without_mutation() {
    let mut s = session(&[(0, 9), (0, 10), (0, 11)], Heading::Up, (5, 5));
    assert_eq!(s.snake().head(), pos(0, 11));
    assert_eq!(s.snake().candidate_head(Heading::Up), pos(0, 12));
    assert!(is_blocked(pos(0, 12), s.snake().body(), &s.grid()));
    assert_eq!(s.tick(), Outcome::Blocked);
    assert_eq!(s.snake().body(), &vec![pos(0, 9), pos(0, 10), pos(0, 11)]);
    assert_eq!(s.snake().heading(), Heading::Up);
    assert_eq!(s.food(), Some(pos(5, 5)));
    assert_eq!(s.status(), Status::Blocked);
}

#[test]
fn free_neighbour_is_not_blocked() {
    let s = session(&[(0, 0), (0, 1), (0, 2), (1, 2)], Heading::Right, (5, 5));
    let candidate = s.snake().candidate_head(s.snake().heading());
    assert_eq!(candidate, pos(2, 2));
    assert!(!s.snake().body().contains(&candidate));
    assert!(!is_blocked(candidate, s.snake().body(), &s.grid()));
    assert!(!s.snake().blocks(candidate));
}

#[test]
fn blocked_session_stays_frozen() {
    let mut s = session(&[(0, 9), (0, 10), (0, 11)], Heading::Up, (5, 5));
    assert_eq!(s.tick(), Outcome::Blocked);
    s.press(snake::Key::Right);
    assert_eq!(s.snake().heading(), Heading::Up);
    assert_eq!(s.tick(), Outcome::Blocked);
    assert_eq!(s.snake().body(), &vec![pos(0, 9), pos(0, 10), pos(0, 11)]);
    assert_eq!(s.status(), Status::Blocked);
}

#[test]
fn moving_onto_the_tail_cell_is_blocked() {
    // A square loop: the head would enter the cell the tail is about to leave.
    let mut s = session(&[(0, 0), (0, 1), (1, 1), (1, 0)], Heading::Left, (5, 5));
    assert_eq!(s.snake().candidate_head(Heading::Left), pos(0, 0));
    assert_eq!(s.tick(), Outcome::Blocked);
    assert_eq!(s.snake().len(), 4);
}

#[test]
fn turn_shows_in_the_next_tick_only() {
    let mut s = session(&[(0, 0), (0, 1), (0, 2)], Heading::Up, (5, 5));
    s.press(snake::Key::Right);
    assert_eq!(s.snake().body(), &vec![pos(0, 0), pos(0, 1), pos(0, 2)]);
    assert_eq!(s.snake().heading(), Heading::Right);
    assert_eq!(s.tick(), Outcome::Moved);
    assert_eq!(s.snake().body(), &vec![pos(0, 1), pos(0, 2), pos(1, 2)]);
}
