use snake::choose_cell;
use snake::free_cells;
use snake::place_food;
use snake::place_food_with;
use snake::Grid;
use snake::Position;

fn pos(x: i32, y: i32) -> Position {
    Position { x, y }
}

fn cells(list: &[(i32, i32)]) -> Vec<Position> {
    list.iter().map(|&(x, y)| pos(x, y)).collect()
}

fn all_cells(g: &Grid) -> Vec<Position> {
    let mut v = Vec::new();
    for x in 0..g.width() {
        for y in 0..g.height() {
            v.push(pos(x, y));
        }
    }
    v
}

#[test]
fn free_cells_come_in_scan_order() {
    let g = Grid::new(2, 3).expect("positive sides");
    assert_eq!(
        free_cells(&Vec::new(), &g),
        cells(&[(0, 0), (0, 1), (0, 2), (1, 0), (1, 1), (1, 2)])
    );
    assert_eq!(
        free_cells(&cells(&[(1, 0), (0, 1)]), &g),
        cells(&[(0, 0), (0, 2), (1, 1), (1, 2)])
    );
    assert_eq!(free_cells(&all_cells(&g), &g), Vec::new());
}

#[test]
fn free_cells_ignore_repeats_and_cells_off_the_board() {
    let g = Grid::new(2, 2).expect("positive sides");
    let occupied = cells(&[(0, 0), (0, 0), (7, 7), (-1, 0)]);
    assert_eq!(free_cells(&occupied, &g), cells(&[(0, 1), (1, 0), (1, 1)]));
}

#[test]
fn choose_cell_counts_round_and_round() {
    let free = cells(&[(0, 1), (1, 0), (1, 1)]);
    assert_eq!(choose_cell(&free, 0), Some(pos(0, 1)));
    assert_eq!(choose_cell(&free, 1), Some(pos(1, 0)));
    assert_eq!(choose_cell(&free, 2), Some(pos(1, 1)));
    assert_eq!(choose_cell(&free, 3), Some(pos(0, 1)));
    assert_eq!(choose_cell(&free, usize::MAX), Some(free[usize::MAX % 3]));
    assert_eq!(choose_cell(&Vec::new(), 0), None);
    assert_eq!(choose_cell(&Vec::new(), 5), None);
}

#[test]
fn place_food_with_picks_the_free_cell_of_the_draw() {
    let g = Grid::new(2, 2).expect("positive sides");
    let occupied = cells(&[(0, 0)]);
    assert_eq!(place_food_with(&occupied, &g, 0), Some(pos(0, 1)));
    assert_eq!(place_food_with(&occupied, &g, 1), Some(pos(1, 0)));
    assert_eq!(place_food_with(&occupied, &g, 2), Some(pos(1, 1)));
    assert_eq!(place_food_with(&occupied, &g, 3), Some(pos(0, 1)));
}

#[test]
fn place_food_with_on_a_full_board_places_nothing() {
    let g = Grid::new(3, 2).expect("positive sides");
    let occupied = all_cells(&g);
    assert_eq!(occupied.len() as u64, g.cell_count());
    for roll in 0..10 {
        assert_eq!(place_food_with(&occupied, &g, roll), None);
    }
}

#[test]
fn place_food_never_lands_on_an_occupied_cell() {
    let g = Grid::new(4, 4).expect("positive sides");
    let occupied = cells(&[(0, 0), (0, 1), (0, 2), (0, 3), (1, 3), (2, 3), (3, 3), (3, 2)]);
    for _ in 0..500 {
        let food = place_food(&occupied, &g).expect("eight cells are free");
        assert!(g.contains(food));
        assert!(!occupied.contains(&food));
    }
}

#[test]
fn place_food_finds_the_last_free_cell() {
    let g = Grid::new(3, 3).expect("positive sides");
    let mut occupied = all_cells(&g);
    let gap = occupied.remove(4);
    for _ in 0..50 {
        assert_eq!(place_food(&occupied, &g), Some(gap));
    }
}

#[test]
fn place_food_is_none_exactly_on_a_full_board() {
    let g = Grid::new(3, 2).expect("positive sides");
    let mut occupied = Vec::new();
    for p in all_cells(&g) {
        assert!((occupied.len() as u64) < g.cell_count());
        assert!(place_food(&occupied, &g).is_some());
        occupied.push(p);
    }
    assert_eq!(occupied.len() as u64, g.cell_count());
    assert_eq!(place_food(&occupied, &g), None);
}

#[test]
fn place_food_reaches_every_free_cell() {
    let g = Grid::new(2, 1).expect("positive sides");
    let occupied = Vec::new();
    let mut seen_first = false;
    let mut seen_second = false;
    for _ in 0..400 {
        match place_food(&occupied, &g) {
            Some(p) if p == pos(0, 0) => seen_first = true,
            Some(p) if p == pos(1, 0) => seen_second = true,
            other => panic!("unexpected placement {other:?}"),
        }
    }
    assert!(seen_first);
    assert!(seen_second);
}

#[test]
fn place_food_counts_cells_not_entries() {
    // As many entries as the board has cells, but one lies off the board:
    // a cell is free and food is placed on it.
    let g = Grid::new(1, 2).expect("positive sides");
    let occupied = cells(&[(0, 0), (5, 5)]);
    assert_eq!(occupied.len() as u64, g.cell_count());
    assert_eq!(place_food(&occupied, &g), Some(pos(0, 1)));
}
