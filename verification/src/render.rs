//! What a cell looks like: the visual categories and their sprites.

use crate::grid::Heading;
use crate::grid::Position;
use vstd::prelude::*;

verus! {

/// What a cell shows.
#[derive(Clone, Copy, Debug, PartialEq, Eq, Structural)]
pub enum Visual {
    Empty,
    Food,
    Body,
    HeadUp,
    HeadDown,
    HeadLeft,
    HeadRight,
}

/// A picture of the tile sheet and how to mirror it.
#[derive(Clone, Copy, Debug, PartialEq, Eq, Structural)]
pub struct Sprite {
    /// Place of the picture on the sheet.
    pub index: u32,
    /// Mirror left to right.
    pub flip_x: bool,
    /// Mirror top to bottom.
    pub flip_y: bool,
}

/// A cell together with what it shows.
#[derive(Clone, Copy, Debug, PartialEq, Eq, Structural)]
pub struct Tile {
    pub position: Position,
    pub visual: Visual,
}

impl Visual {
    /// The look of a head that faces `heading`.
    pub open spec fn spec_head(heading: Heading) -> Visual {
        match heading {
            Heading::Up => Visual::HeadUp,
            Heading::Down => Visual::HeadDown,
            Heading::Left => Visual::HeadLeft,
            Heading::Right => Visual::HeadRight,
        }
    }

    /// The look of a head that faces `heading`.
    #[verifier::when_used_as_spec(spec_head)]
    pub fn head(heading: Heading) -> (v: Visual)
        ensures
            v == Self::spec_head(heading),
    {
        match heading {
            Heading::Up => Visual::HeadUp,
            Heading::Down => Visual::HeadDown,
            Heading::Left => Visual::HeadLeft,
            Heading::Right => Visual::HeadRight,
        }
    }

    /// The sprite that draws this look. The sheet holds, in this order, an
    /// empty cell, food, a body segment, a head facing up and a head facing
    /// right; the other two heads are mirror images.
    pub open spec fn spec_sprite(self) -> Sprite {
        match self {
            Visual::Empty => Sprite { index: 0, flip_x: false, flip_y: false },
            Visual::Food => Sprite { index: 1, flip_x: false, flip_y: false },
            Visual::Body => Sprite { index: 2, flip_x: false, flip_y: false },
            Visual::HeadUp => Sprite { index: 3, flip_x: false, flip_y: false },
            Visual::HeadDown => Sprite { index: 3, flip_x: false, flip_y: true },
            Visual::HeadLeft => Sprite { index: 4, flip_x: true, flip_y: false },
            Visual::HeadRight => Sprite { index: 4, flip_x: false, flip_y: false },
        }
    }

    /// The sprite that draws this look.
    #[verifier::when_used_as_spec(spec_sprite)]
    pub fn sprite(self) -> (s: Sprite)
        ensures
            s == self.spec_sprite(),
    {
        match self {
            Visual::Empty => Sprite { index: 0, flip_x: false, flip_y: false },
            Visual::Food => Sprite { index: 1, flip_x: false, flip_y: false },
            Visual::Body => Sprite { index: 2, flip_x: false, flip_y: false },
            Visual::HeadUp => Sprite { index: 3, flip_x: false, flip_y: false },
            Visual::HeadDown => Sprite { index: 3, flip_x: false, flip_y: true },
            Visual::HeadLeft => Sprite { index: 4, flip_x: true, flip_y: false },
            Visual::HeadRight => Sprite { index: 4, flip_x: false, flip_y: false },
        }
    }
}

/// The tiles of `after`, in their order, that `before` does not hold
/// unchanged at the same place.
pub open spec fn spec_changed_tiles(before: Seq<Tile>, after: Seq<Tile>) -> Seq<Tile>
    decreases after.len(),
{
    if after.len() == 0 {
        Seq::empty()
    } else {
        let earlier = spec_changed_tiles(before, after.drop_last());
        let k = after.len() - 1;
        if k < before.len() && before[k] == after[k] {
            earlier
        } else {
            earlier.push(after[k])
        }
    }
}

/// A tile is reported as changed exactly when it stands in `after` at a
/// place where `before` has no tile or another one.
pub proof fn lemma_changed_tiles(before: Seq<Tile>, after: Seq<Tile>)
    ensures
        forall|t: Tile| #[trigger]
            spec_changed_tiles(before, after).contains(t) <==> exists|k: int|
                0 <= k < after.len() && #[trigger] after[k] == t && !(k < before.len() && before[k]
                    == t),
        spec_changed_tiles(before, after).len() <= after.len(),
        before == after ==> spec_changed_tiles(before, after).len() == 0,
    decreases after.len(),
{
    let changed = spec_changed_tiles(before, after);
    if after.len() > 0 {
        let shorter = after.drop_last();
        let earlier = spec_changed_tiles(before, shorter);
        let last = after.len() - 1;
        lemma_changed_tiles(before, shorter);
        assert forall|t: Tile| #[trigger]
            changed.contains(t) <==> exists|k: int|
                0 <= k < after.len() && #[trigger] after[k] == t && !(k < before.len() && before[k]
                    == t) by {
            if changed.contains(t) {
                let i = choose|i: int| 0 <= i < changed.len() && changed[i] == t;
                if i < earlier.len() {
                    assert(earlier.contains(t));
                    let k = choose|k: int|
                        0 <= k < shorter.len() && #[trigger] shorter[k] == t && !(k < before.len()
                            && before[k] == t);
                    assert(after[k] == t);
                } else {
                    assert(after[last] == t);
                }
            }
            if exists|k: int|
                0 <= k < after.len() && #[trigger] after[k] == t && !(k < before.len() && before[k]
                    == t) {
                let k = choose|k: int|
                    0 <= k < after.len() && #[trigger] after[k] == t && !(k < before.len()
                        && before[k] == t);
                if k < last {
                    assert(shorter[k] == t);
                    assert(earlier.contains(t));
                    let i = choose|i: int| 0 <= i < earlier.len() && earlier[i] == t;
                    assert(changed[i] == t);
                } else {
                    assert(changed[changed.len() - 1] == t);
                }
            }
        }
        if before == after {
            lemma_unchanged_prefix(after, shorter);
        }
    } else {
        assert forall|t: Tile| !(#[trigger] changed.contains(t)) by {}
    }
}

/// Nothing is reported of tiles that stand unchanged at the start of
/// `before`.
proof fn lemma_unchanged_prefix(before: Seq<Tile>, after: Seq<Tile>)
    requires
        after.len() <= before.len(),
        forall|k: int| 0 <= k < after.len() ==> before[k] == after[k],
    ensures
        spec_changed_tiles(before, after).len() == 0,
    decreases after.len(),
{
    if after.len() > 0 {
        lemma_unchanged_prefix(before, after.drop_last());
    }
}

/// The tiles of `after`, in their order, that `before` does not hold
/// unchanged at the same place: what has to be drawn anew.
pub fn changed_tiles(before: &Vec<Tile>, after: &Vec<Tile>) -> (changed: Vec<Tile>)
    ensures
        changed@ == spec_changed_tiles(before@, after@),
{
    let mut changed: Vec<Tile> = Vec::new();
    let mut k: usize = 0;
    while k < after.len()
        invariant
            k <= after.len(),
            changed@ == spec_changed_tiles(before@, after@.take(k as int)),
        decreases after.len() - k,
    {
        proof {
            assert(after@.take(k + 1).drop_last() =~= after@.take(k as int));
        }
        if !(k < before.len() && before[k] == after[k]) {
            changed.push(after[k]);
        }
        k += 1;
    }
    proof {
        assert(after@.take(after@.len() as int) =~= after@);
    }
    changed
}

} // verus!
