use snake::apply_edges;
use snake::apply_turn;
use snake::Heading;
use snake::Key;
use snake::KeyEdges;

const HEADINGS: [Heading; 4] = [Heading::Up, Heading::Down, Heading::Left, Heading::Right];
const KEYS: [Key; 4] = [Key::Up, Key::Down, Key::Left, Key::Right];

#[test]
fn key_headings() {
    assert_eq!(Key::Up.heading(), Heading::Up);
    assert_eq!(Key::Down.heading(), Heading::Down);
    assert_eq!(Key::Left.heading(), Heading::Left);
    assert_eq!(Key::Right.heading(), Heading::Right);
}

#[test]
fn perpendicular_keys_turn() {
    assert_eq!(apply_turn(Heading::Up, Key::Left), Heading::Left);
    assert_eq!(apply_turn(Heading::Up, Key::Right), Heading::Right);
    assert_eq!(apply_turn(Heading::Down, Key::Left), Heading::Left);
    assert_eq!(apply_turn(Heading::Down, Key::Right), Heading::Right);
    assert_eq!(apply_turn(Heading::Left, Key::Up), Heading::Up);
    assert_eq!(apply_turn(Heading::Left, Key::Down), Heading::Down);
    assert_eq!(apply_turn(Heading::Right, Key::Up), Heading::Up);
    assert_eq!(apply_turn(Heading::Right, Key::Down), Heading::Down);
}

#[test]
fn keys_on_the_current_axis_are_ignored() {
    assert_eq!(apply_turn(Heading::Up, Key::Up), Heading::Up);
    assert_eq!(apply_turn(Heading::Up, Key::Down), Heading::Up);
    assert_eq!(apply_turn(Heading::Down, Key::Up), Heading::Down);
    assert_eq!(apply_turn(Heading::Down, Key::Down), Heading::Down);
    assert_eq!(apply_turn(Heading::Left, Key::Left), Heading::Left);
    assert_eq!(apply_turn(Heading::Left, Key::Right), Heading::Left);
    assert_eq!(apply_turn(Heading::Right, Key::Left), Heading::Right);
    assert_eq!(apply_turn(Heading::Right, Key::Right), Heading::Right);
}

#[test]
fn no_turn_reverses_the_heading() {
    for h in HEADINGS {
        for k in KEYS {
            assert_ne!(apply_turn(h, k), h.opposite());
        }
    }
}

#[test]
fn no_key_sequence_reverses_in_one_turn() {
    // Every sequence of four keys, from every start.
    for start in HEADINGS {
        for code in 0..256usize {
            let mut heading = start;
            let mut rest = code;
            for _ in 0..4 {
                let key = KEYS[rest % 4];
                rest /= 4;
                let next = apply_turn(heading, key);
                assert_ne!(next, heading.opposite());
                heading = next;
            }
        }
    }
}

#[test]
fn edges_of_one_look() {
    let none = KeyEdges::none();
    for h in HEADINGS {
        assert_eq!(apply_edges(h, none), h);
        for k in KEYS {
            assert_eq!(apply_edges(h, KeyEdges::only(k)), apply_turn(h, k));
        }
    }
}

#[test]
fn of_two_perpendicular_keys_the_later_wins() {
    let both_sides = KeyEdges { up: false, down: false, left: true, right: true };
    assert_eq!(apply_edges(Heading::Up, both_sides), Heading::Right);
    assert_eq!(apply_edges(Heading::Down, both_sides), Heading::Right);
    assert_eq!(apply_edges(Heading::Left, both_sides), Heading::Left);
    let both_ends = KeyEdges { up: true, down: true, left: false, right: false };
    assert_eq!(apply_edges(Heading::Left, both_ends), Heading::Down);
    assert_eq!(apply_edges(Heading::Right, both_ends), Heading::Down);
    assert_eq!(apply_edges(Heading::Up, both_ends), Heading::Up);
}

#[test]
fn the_axis_is_judged_once_per_look() {
    // Left and up together while heading up: left turns, up is on the old axis.
    let edges = KeyEdges { up: true, down: false, left: true, right: false };
    assert_eq!(apply_edges(Heading::Up, edges), Heading::Left);
    assert_eq!(apply_edges(Heading::Right, edges), Heading::Up);
    let all = KeyEdges { up: true, down: true, left: true, right: true };
    for h in HEADINGS {
        assert_ne!(apply_edges(h, all), h.opposite());
    }
}

#[test]
fn key_edges_constructors() {
    assert_eq!(
        KeyEdges::none(),
        KeyEdges { up: false, down: false, left: false, right: false }
    );
    assert_eq!(
        KeyEdges::only(Key::Down),
        KeyEdges { up: false, down: true, left: false, right: false }
    );
    assert_eq!(
        KeyEdges::only(Key::Left),
        KeyEdges { up: false, down: false, left: true, right: false }
    );
}
