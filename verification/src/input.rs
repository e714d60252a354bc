//! Steering: how key presses change the heading.

use crate::grid::Heading;
use vstd::prelude::*;

verus! {

/// One of the four direction keys.
#[derive(Clone, Copy, Debug, PartialEq, Eq, Structural)]
pub enum Key {
    Up,
    Down,
    Left,
    Right,
}

impl Key {
    /// The heading the key asks for.
    pub open spec fn spec_heading(self) -> Heading {
        match self {
            Key::Up => Heading::Up,
            Key::Down => Heading::Down,
            Key::Left => Heading::Left,
            Key::Right => Heading::Right,
        }
    }

    /// The heading the key asks for.
    #[verifier::when_used_as_spec(spec_heading)]
    pub fn heading(self) -> (h: Heading)
        ensures
            h == self.spec_heading(),
    {
        match self {
            Key::Up => Heading::Up,
            Key::Down => Heading::Down,
            Key::Left => Heading::Left,
            Key::Right => Heading::Right,
        }
    }
}

/// The keys that went down since the last look, one flag per key. A held
/// key is not a press.
#[derive(Clone, Copy, Debug, PartialEq, Eq, Structural)]
pub struct KeyEdges {
    pub up: bool,
    pub down: bool,
    pub left: bool,
    pub right: bool,
}

impl KeyEdges {
    /// No key went down.
    pub open spec fn spec_none() -> KeyEdges {
        KeyEdges { up: false, down: false, left: false, right: false }
    }

    /// No key went down.
    #[verifier::when_used_as_spec(spec_none)]
    pub fn none() -> (e: KeyEdges)
        ensures
            e == Self::spec_none(),
    {
        KeyEdges { up: false, down: false, left: false, right: false }
    }

    /// Only `key` went down.
    pub open spec fn spec_only(key: Key) -> KeyEdges {
        KeyEdges {
            up: key == Key::Up,
            down: key == Key::Down,
            left: key == Key::Left,
            right: key == Key::Right,
        }
    }

    /// Only `key` went down.
    #[verifier::when_used_as_spec(spec_only)]
    pub fn only(key: Key) -> (e: KeyEdges)
        ensures
            e == Self::spec_only(key),
    {
        KeyEdges {
            up: key == Key::Up,
            down: key == Key::Down,
            left: key == Key::Left,
            right: key == Key::Right,
        }
    }
}

/// The heading after `pressed` went down while heading `current`: the
/// key's heading if it is perpendicular to `current`, else `current`. A key
/// on the current axis, forwards or backwards, changes nothing.
pub open spec fn spec_apply_turn(current: Heading, pressed: Key) -> Heading {
    if current.is_vertical() != pressed.heading().is_vertical() {
        pressed.heading()
    } else {
        current
    }
}

/// The heading after the presses `edges` of one look while heading
/// `current`. Only the two keys perpendicular to `current` count; if both
/// went down, right wins over left and down over up.
pub open spec fn spec_apply_edges(current: Heading, edges: KeyEdges) -> Heading {
    if current.is_vertical() {
        if edges.right {
            Heading::Right
        } else if edges.left {
            Heading::Left
        } else {
            current
        }
    } else {
        if edges.down {
            Heading::Down
        } else if edges.up {
            Heading::Up
        } else {
            current
        }
    }
}

/// The headings passed through when the keys `keys` go down one after the
/// other, starting from `start`: the first entry is `start`, and each
/// further entry is the turn of the one before by the next key.
pub open spec fn heading_trace(start: Heading, keys: Seq<Key>) -> Seq<Heading>
    decreases keys.len(),
{
    if keys.len() == 0 {
        seq![start]
    } else {
        let before = heading_trace(start, keys.drop_last());
        before.push(spec_apply_turn(before.last(), keys.last()))
    }
}

/// The heading after `pressed` went down while heading `current`. Only a
/// perpendicular key turns the snake, so the result is never the reverse
/// of `current`.
#[verifier::when_used_as_spec(spec_apply_turn)]
pub fn apply_turn(current: Heading, pressed: Key) -> (h: Heading)
    ensures
        h == spec_apply_turn(current, pressed),
        h != current.opposite(),
{
    let wanted = pressed.heading();
    if current.is_vertical() != wanted.is_vertical() {
        wanted
    } else {
        current
    }
}

/// The heading after the presses `edges` of one look while heading
/// `current`. The axis is judged once, from `current`; of two
/// perpendicular keys the later one in the order left, right (or up, down)
/// wins. The result is never the reverse of `current`.
#[verifier::when_used_as_spec(spec_apply_edges)]
pub fn apply_edges(current: Heading, edges: KeyEdges) -> (h: Heading)
    ensures
        h == spec_apply_edges(current, edges),
        h != current.opposite(),
{
    let mut heading = current;
    if current.is_vertical() {
        if edges.left {
            heading = Heading::Left;
        }
        if edges.right {
            heading = Heading::Right;
        }
    } else {
        if edges.up {
            heading = Heading::Up;
        }
        if edges.down {
            heading = Heading::Down;
        }
    }
    heading
}

/// A single press is a look with one key down.
pub proof fn lemma_single_press(current: Heading, pressed: Key)
    ensures
        spec_apply_edges(current, KeyEdges::only(pressed)) == spec_apply_turn(current, pressed),
        spec_apply_edges(current, KeyEdges::none()) == current,
{
}

/// Whatever keys go down and in whatever order, no single turn reverses
/// the heading: each heading passed through differs from the reverse of
/// the one before it.
pub proof fn lemma_turns_never_reverse(start: Heading, keys: Seq<Key>)
    ensures
        heading_trace(start, keys).len() == keys.len() + 1,
        heading_trace(start, keys)[0] == start,
        forall|i: int|
            0 <= i < keys.len() ==> {
                &&& heading_trace(start, keys)[i + 1] == spec_apply_turn(
                    heading_trace(start, keys)[i],
                    #[trigger] keys[i],
                )
                &&& heading_trace(start, keys)[i + 1] != heading_trace(start, keys)[i].opposite()
            },
    decreases keys.len(),
{
    if keys.len() > 0 {
        let shorter = keys.drop_last();
        lemma_turns_never_reverse(start, shorter);
        let before = heading_trace(start, shorter);
        let trace = heading_trace(start, keys);
        assert forall|i: int| 0 <= i < keys.len() implies {
            &&& trace[i + 1] == spec_apply_turn(trace[i], #[trigger] keys[i])
            &&& trace[i + 1] != trace[i].opposite()
        } by {
            if i < shorter.len() {
                assert(keys[i] == shorter[i]);
            }
        }
    }
}

} // verus!
