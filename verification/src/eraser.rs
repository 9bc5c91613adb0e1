//! The eraser: destroys the live marks within a radius of the pointer,
//! without a word to the undo history.

use vstd::prelude::*;
use crate::geometry::{distance_squared, Point};
use crate::scene::{despawns, is_live, within, Scene};

verus! {

/// The eraser at `pointer` reaches the mark: it is live and lies within
/// `radius` of the pointer, the rim included.
pub open spec fn in_reach(scene: Scene, id: int, pointer: Point, radius: int) -> bool {
    is_live(scene.marks(), id) && within(scene.marks()[id].unwrap().pos, pointer, radius)
}

/// Tells whether `a` lies within `radius` of `b`, the rim included.
pub fn is_within(a: Point, b: Point, radius: u32) -> (near: bool)
    ensures
        near == within(a, b, radius as int),
{
    assert(radius * radius <= 0xffff_ffff * 0xffff_ffff) by (nonlinear_arith)
        requires
            0 <= radius <= 0xffff_ffff,
    ;
    let r2: u128 = (radius as u128) * (radius as u128);
    distance_squared(a, b) <= r2
}

/// Queues the destruction of every live mark within `radius` of `pointer`
/// and returns their identities in rising order. Marks out of reach, and
/// marks that appear only when the frame ends, are left alone.
pub fn erase(scene: &mut Scene, pointer: Point, radius: u32) -> (erased: Vec<usize>)
    ensures
        final(scene).marks() == old(scene).marks(),
        final(scene).selectors() == old(scene).selectors(),
        final(scene).pending() == old(scene).pending() + despawns(erased@),
        forall|i: int, j: int| 0 <= i < j < erased@.len() ==> erased@[i] < erased@[j],
        forall|id: usize|
            erased@.contains(id) <==> in_reach(*old(scene), id as int, pointer, radius as int),
{
    let mut erased: Vec<usize> = Vec::new();
    let n = scene.issued();
    let mut id: usize = 0;
    assert(scene.pending() =~= old(scene).pending() + despawns(erased@));
    while id < n
        invariant
            id <= n,
            n == old(scene).marks().len(),
            scene.marks() == old(scene).marks(),
            scene.selectors() == old(scene).selectors(),
            scene.pending() == old(scene).pending() + despawns(erased@),
            forall|i: int, j: int| 0 <= i < j < erased@.len() ==> erased@[i] < erased@[j],
            forall|i: int| 0 <= i < erased@.len() ==> erased@[i] < id,
            forall|j: usize|
                erased@.contains(j) <==> j < id && in_reach(
                    *old(scene),
                    j as int,
                    pointer,
                    radius as int,
                ),
        decreases n - id,
    {
        let ghost before = erased@;
        let hit = match scene.mark(id) {
            Some(mark) => is_within(mark.pos, pointer, radius),
            None => false,
        };
        if hit {
            scene.despawn_mark(id);
            erased.push(id);
            assert(scene.pending() =~= old(scene).pending() + despawns(erased@));
            assert(erased@[before.len() as int] == id);
            assert forall|j: usize|
                erased@.contains(j) <==> j < id + 1 && in_reach(
                    *old(scene),
                    j as int,
                    pointer,
                    radius as int,
                ) by {
                if before.contains(j) {
                    let i = choose|i: int| 0 <= i < before.len() && before[i] == j;
                    assert(erased@[i] == j);
                }
                if erased@.contains(j) && j != id {
                    let i = choose|i: int| 0 <= i < erased@.len() && erased@[i] == j;
                    assert(before[i] == j);
                }
            }
        }
        id = id + 1;
    }
    erased
}

} // verus!
