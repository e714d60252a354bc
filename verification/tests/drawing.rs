use snake::changed_tiles;
use snake::Clock;
use snake::Grid;
use snake::Heading;
use snake::Position;
use snake::Session;
use snake::Snake;
use snake::Sprite;
use snake::Tile;
use snake::Visual;

fn pos(x: i32, y: i32) -> Position {
    Position { x, y }
}

fn tile(x: i32, y: i32, visual: Visual) -> Tile {
    Tile { position: pos(x, y), visual }
}

fn session(
    width: i32,
    height: i32,
    list: &[(i32, i32)],
    heading: Heading,
    food: Option<(i32, i32)>,
) -> Session {
    let grid = Grid::new(width, height).expect("positive sides");
    let body: Vec<Position> = list.iter().map(|&(x, y)| pos(x, y)).collect();
    let snake = Snake::new(grid, body, heading).expect("the cells form a snake");
    Session::new(snake, food.map(|(x, y)| pos(x, y)), Clock::new(1)).expect("sound food")
}

#[test]
fn head_visual_follows_the_heading() {
    assert_eq!(Visual::head(Heading::Up), Visual::HeadUp);
    assert_eq!(Visual::head(Heading::Down), Visual::HeadDown);
    assert_eq!(Visual::head(Heading::Left), Visual::HeadLeft);
    assert_eq!(Visual::head(Heading::Right), Visual::HeadRight);
}

#[test]
fn sprites_of_the_sheet() {
    let plain = |index| Sprite { index, flip_x: false, flip_y: false };
    assert_eq!(Visual::Empty.sprite(), plain(0));
    assert_eq!(Visual::Food.sprite(), plain(1));
    assert_eq!(Visual::Body.sprite(), plain(2));
    assert_eq!(Visual::HeadUp.sprite(), plain(3));
    assert_eq!(Visual::HeadDown.sprite(), Sprite { index: 3, flip_x: false, flip_y: true });
    assert_eq!(Visual::HeadLeft.sprite(), Sprite { index: 4, flip_x: true, flip_y: false });
    assert_eq!(Visual::HeadRight.sprite(), plain(4));
}

#[test]
fn visual_at_tells_head_body_food_and_empty_apart() {
    let s = session(3, 3, &[(0, 0), (0, 1), (1, 1)], Heading::Right, Some((2, 2)));
    assert_eq!(s.visual_at(pos(1, 1)), Visual::HeadRight);
    assert_eq!(s.visual_at(pos(0, 0)), Visual::Body);
    assert_eq!(s.visual_at(pos(0, 1)), Visual::Body);
    assert_eq!(s.visual_at(pos(2, 2)), Visual::Food);
    assert_eq!(s.visual_at(pos(2, 1)), Visual::Empty);
    assert_eq!(s.visual_at(pos(-1, 0)), Visual::Empty);
    assert_eq!(s.visual_at(pos(3, 3)), Visual::Empty);
}

#[test]
fn tiles_list_the_board_in_scan_order() {
    let s = session(2, 3, &[(0, 0), (0, 1)], Heading::Up, Some((1, 2)));
    assert_eq!(
        s.tiles(),
        vec![
            tile(0, 0, Visual::Body),
            tile(0, 1, Visual::HeadUp),
            tile(0, 2, Visual::Empty),
            tile(1, 0, Visual::Empty),
            tile(1, 1, Visual::Empty),
            tile(1, 2, Visual::Food),
        ]
    );
}

#[test]
fn tiles_of_a_full_board() {
    let s = session(2, 2, &[(0, 0), (0, 1), (1, 1), (1, 0)], Heading::Down, None);
    assert_eq!(
        s.tiles(),
        vec![
            tile(0, 0, Visual::Body),
            tile(0, 1, Visual::Body),
            tile(1, 0, Visual::HeadDown),
            tile(1, 1, Visual::Body),
        ]
    );
}

#[test]
fn a_plain_move_changes_three_tiles() {
    let mut s = session(3, 4, &[(0, 0), (0, 1), (0, 2)], Heading::Up, Some((2, 2)));
    let before = s.tiles();
    s.step(0);
    let after = s.tiles();
    assert_eq!(
        changed_tiles(&before, &after),
        vec![
            tile(0, 0, Visual::Empty),
            tile(0, 2, Visual::Body),
            tile(0, 3, Visual::HeadUp),
        ]
    );
}

#[test]
fn eating_changes_head_neck_and_food() {
    let mut s = session(3, 4, &[(0, 0), (0, 1), (0, 2)], Heading::Up, Some((0, 3)));
    let before = s.tiles();
    s.step(0);
    let after = s.tiles();
    // The first free cell after growth is (1,0).
    assert_eq!(
        changed_tiles(&before, &after),
        vec![
            tile(0, 2, Visual::Body),
            tile(0, 3, Visual::HeadUp),
            tile(1, 0, Visual::Food),
        ]
    );
}

#[test]
fn a_turn_changes_the_head_tile_only() {
    let mut s = session(3, 4, &[(0, 0), (0, 1), (0, 2)], Heading::Up, Some((2, 2)));
    let before = s.tiles();
    s.press(snake::Key::Right);
    let after = s.tiles();
    assert_eq!(changed_tiles(&before, &after), vec![tile(0, 2, Visual::HeadRight)]);
}

#[test]
fn changed_tiles_of_equal_lists_is_empty() {
    let s = session(3, 3, &[(0, 0), (0, 1)], Heading::Up, Some((2, 2)));
    let tiles = s.tiles();
    assert_eq!(changed_tiles(&tiles, &tiles), Vec::new());
    assert_eq!(changed_tiles(&Vec::new(), &Vec::new()), Vec::new());
}

#[test]
fn changed_tiles_against_nothing_is_everything() {
    let s = session(2, 2, &[(0, 0), (0, 1)], Heading::Up, Some((1, 1)));
    let tiles = s.tiles();
    assert_eq!(changed_tiles(&Vec::new(), &tiles), tiles);
    let shorter = vec![tiles[0], tile(9, 9, Visual::Food)];
    assert_eq!(changed_tiles(&shorter, &tiles), tiles[1..].to_vec());
    assert_eq!(changed_tiles(&tiles, &shorter), vec![tile(9, 9, Visual::Food)]);
}
