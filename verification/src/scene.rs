//! The drawing surface: an arena of marks, the palette selectors, and the
//! buffer of mutations that a frame queues and its end applies.
//!
//! A mark's identity is its slot in the arena. Identities are handed out at
//! once and never reused; the mark itself becomes live, and a destroyed mark
//! vacant, only when the frame ends. Destroying a mark that is already gone
//! changes nothing.

use vstd::prelude::*;
use crate::geometry::{dist_sq, Point};

verus! {

/// One placed stamp: where it lies and which texture it shows.
#[derive(Clone, Copy, Debug, PartialEq, Eq, Structural)]
pub struct Mark {
    pub pos: Point,
    pub texture: usize,
}

/// One palette selector: the texture it shows, the colour it selects and how
/// far it is shifted while the pointer hovers over it.
#[derive(Clone, Copy, Debug, PartialEq, Eq, Structural)]
pub struct Selector {
    pub texture: usize,
    pub color: usize,
    pub offset: u32,
}

/// A change to the surface, queued until the frame ends.
#[derive(Clone, Copy, Debug, PartialEq, Eq, Structural)]
pub enum Mutation {
    SpawnMark { id: usize, mark: Mark },
    DespawnMark { id: usize },
    SpawnSelector { texture: usize, color: usize },
}

/// The arena after one mutation.
pub open spec fn marks_after_one(marks: Seq<Option<Mark>>, m: Mutation) -> Seq<Option<Mark>> {
    match m {
        Mutation::SpawnMark { id, mark } => if id < marks.len() {
            marks.update(id as int, Some(mark))
        } else {
            marks
        },
        Mutation::DespawnMark { id } => if id < marks.len() {
            marks.update(id as int, None)
        } else {
            marks
        },
        Mutation::SpawnSelector { .. } => marks,
    }
}

/// The arena after the mutations of `pending`, applied in order.
pub open spec fn marks_after(marks: Seq<Option<Mark>>, pending: Seq<Mutation>) -> Seq<
    Option<Mark>,
>
    decreases pending.len(),
{
    if pending.len() == 0 {
        marks
    } else {
        marks_after_one(marks_after(marks, pending.drop_last()), pending.last())
    }
}

/// The selectors after one mutation.
pub open spec fn selectors_after_one(selectors: Seq<Selector>, m: Mutation) -> Seq<Selector> {
    match m {
        Mutation::SpawnSelector { texture, color } => selectors.push(
            Selector { texture, color, offset: 0 },
        ),
        _ => selectors,
    }
}

/// The selectors after the mutations of `pending`, applied in order.
pub open spec fn selectors_after(selectors: Seq<Selector>, pending: Seq<Mutation>) -> Seq<
    Selector,
>
    decreases pending.len(),
{
    if pending.len() == 0 {
        selectors
    } else {
        selectors_after_one(selectors_after(selectors, pending.drop_last()), pending.last())
    }
}

/// The mark is live: its slot exists and is filled.
pub open spec fn is_live(marks: Seq<Option<Mark>>, id: int) -> bool {
    0 <= id < marks.len() && marks[id].is_some()
}

/// A point lies within `radius` of another, the rim included.
pub open spec fn within(a: Point, b: Point, radius: int) -> bool {
    dist_sq(a, b) <= radius * radius
}

/// The requests to destroy the marks of `ids`, in order.
pub open spec fn despawns(ids: Seq<usize>) -> Seq<Mutation> {
    Seq::new(ids.len(), |i: int| Mutation::DespawnMark { id: ids[i] })
}

/// Applying mutations neither adds nor removes slots.
pub proof fn lemma_marks_after_len(marks: Seq<Option<Mark>>, pending: Seq<Mutation>)
    ensures
        marks_after(marks, pending).len() == marks.len(),
    decreases pending.len(),
{
    if pending.len() > 0 {
        lemma_marks_after_len(marks, pending.drop_last());
    }
}

/// Requests to destroy marks, queued behind what is pending, leave exactly
/// those marks vacant and every other slot as the pending mutations leave it.
pub proof fn lemma_marks_after_despawns(
    marks: Seq<Option<Mark>>,
    pending: Seq<Mutation>,
    ids: Seq<usize>,
)
    ensures
        marks_after(marks, pending + despawns(ids)).len() == marks.len(),
        forall|j: int|
            0 <= j < marks.len() ==> #[trigger] marks_after(marks, pending + despawns(ids))[j] == (
            if exists|i: int| 0 <= i < ids.len() && ids[i] == j {
                None
            } else {
                marks_after(marks, pending)[j]
            }),
    decreases ids.len(),
{
    lemma_marks_after_len(marks, pending + despawns(ids));
    lemma_marks_after_len(marks, pending);
    if ids.len() == 0 {
        assert(pending + despawns(ids) =~= pending);
    } else {
        let rest = ids.drop_last();
        let id = ids.last();
        lemma_marks_after_despawns(marks, pending, rest);
        lemma_marks_after_len(marks, pending + despawns(rest));
        let all = pending + despawns(ids);
        assert(all.drop_last() =~= pending + despawns(rest));
        assert(all.last() == Mutation::DespawnMark { id });
        assert forall|j: int| 0 <= j < marks.len() implies #[trigger] marks_after(marks, all)[j]
            == (if exists|i: int| 0 <= i < ids.len() && ids[i] == j {
            None
        } else {
            marks_after(marks, pending)[j]
        }) by {
            if j == id {
                assert(ids[ids.len() - 1] == j);
            } else if exists|i: int| 0 <= i < rest.len() && rest[i] == j {
                let i = choose|i: int| 0 <= i < rest.len() && rest[i] == j;
                assert(ids[i] == j);
            } else {
                if exists|i: int| 0 <= i < ids.len() && ids[i] == j {
                    let i = choose|i: int| 0 <= i < ids.len() && ids[i] == j;
                    assert(rest[i] == j);
                }
            }
        }
    }
}

/// Every mark whose appearance is queued has had its identity handed out.
pub open spec fn spawns_issued(issued: int, pending: Seq<Mutation>) -> bool {
    forall|i: int|
        0 <= i < pending.len() ==> match #[trigger] pending[i] {
            Mutation::SpawnMark { id, .. } => id < issued,
            _ => true,
        }
}

/// A slot that is handed out after mutations were queued stays vacant under
/// them.
pub proof fn lemma_marks_after_new_slot(marks: Seq<Option<Mark>>, pending: Seq<Mutation>)
    requires
        spawns_issued(marks.len() as int, pending),
    ensures
        marks_after(marks.push(None), pending) == marks_after(marks, pending).push(None),
    decreases pending.len(),
{
    if pending.len() > 0 {
        let rest = pending.drop_last();
        assert(spawns_issued(marks.len() as int, rest)) by {
            assert forall|i: int| 0 <= i < rest.len() implies match #[trigger] rest[i] {
                Mutation::SpawnMark { id, .. } => id < marks.len(),
                _ => true,
            } by {
                assert(rest[i] == pending[i]);
            }
        }
        lemma_marks_after_new_slot(marks, rest);
        lemma_marks_after_len(marks, rest);
        let m = pending[pending.len() - 1];
        assert(marks_after_one(marks_after(marks, rest).push(None), m) =~= marks_after_one(
            marks_after(marks, rest),
            m,
        ).push(None));
    }
}

/// A mark that was spawned in this frame is live when the frame ends, and
/// no other slot is touched by its appearance.
pub proof fn lemma_marks_after_spawn(
    marks: Seq<Option<Mark>>,
    pending: Seq<Mutation>,
    id: usize,
    mark: Mark,
)
    requires
        spawns_issued(marks.len() as int, pending),
        id == marks.len(),
    ensures
        marks_after(marks.push(None), pending.push(Mutation::SpawnMark { id, mark }))
            == marks_after(marks, pending).push(Some(mark)),
        spawns_issued(marks.len() as int + 1, pending.push(Mutation::SpawnMark { id, mark })),
{
    let m = Mutation::SpawnMark { id, mark };
    let queued = pending.push(m);
    assert(queued.drop_last() =~= pending);
    lemma_marks_after_new_slot(marks, pending);
    lemma_marks_after_len(marks, pending);
    assert(marks_after(marks, pending).push(None).update(id as int, Some(mark)) =~= marks_after(
        marks,
        pending,
    ).push(Some(mark)));
}

/// Requests to destroy marks keep `spawns_issued`.
pub proof fn lemma_spawns_issued_despawns(issued: int, pending: Seq<Mutation>, ids: Seq<usize>)
    requires
        spawns_issued(issued, pending),
    ensures
        spawns_issued(issued, pending + despawns(ids)),
{
    let all = pending + despawns(ids);
    assert forall|i: int| 0 <= i < all.len() implies match #[trigger] all[i] {
        Mutation::SpawnMark { id, .. } => id < issued,
        _ => true,
    } by {
        if i < pending.len() {
            assert(all[i] == pending[i]);
        } else {
            assert(all[i] == despawns(ids)[i - pending.len()]);
        }
    }
}

/// A queued selector changes no mark.
pub proof fn lemma_marks_after_selector(
    marks: Seq<Option<Mark>>,
    pending: Seq<Mutation>,
    texture: usize,
    color: usize,
)
    ensures
        marks_after(marks, pending.push(Mutation::SpawnSelector { texture, color })) == marks_after(
            marks,
            pending,
        ),
        spawns_issued(marks.len() as int, pending) ==> spawns_issued(
            marks.len() as int,
            pending.push(Mutation::SpawnSelector { texture, color }),
        ),
{
    let queued = pending.push(Mutation::SpawnSelector { texture, color });
    assert(queued.drop_last() =~= pending);
}

/// Destroying marks that are already destroyed changes nothing: a second
/// round of the same requests leaves the arena as the first did.
pub proof fn lemma_despawn_again(marks: Seq<Option<Mark>>, pending: Seq<Mutation>, ids: Seq<usize>)
    ensures
        marks_after(marks, pending + despawns(ids) + despawns(ids)) == marks_after(
            marks,
            pending + despawns(ids),
        ),
{
    let once = pending + despawns(ids);
    lemma_marks_after_despawns(marks, pending, ids);
    lemma_marks_after_despawns(marks, once, ids);
    assert(marks_after(marks, once + despawns(ids)) =~= marks_after(marks, once));
}

/// The drawing surface.
pub struct Scene {
    marks: Vec<Option<Mark>>,
    selectors: Vec<Selector>,
    pending: Vec<Mutation>,
}

impl Scene {
    /// The arena: one slot for every identity handed out, filled while the
    /// mark is live.
    pub closed spec fn marks(&self) -> Seq<Option<Mark>> {
        self.marks@
    }

    /// The palette selectors, in the order they appeared.
    pub closed spec fn selectors(&self) -> Seq<Selector> {
        self.selectors@
    }

    /// The mutations queued in this frame.
    pub closed spec fn pending(&self) -> Seq<Mutation> {
        self.pending@
    }

    /// Every identity handed out fits a `usize`.
    pub proof fn lemma_issued_bound(&self)
        ensures
            self.marks().len() <= usize::MAX,
    {
        assert(self.marks.len() == self.marks@.len());
    }

    /// An empty surface.
    pub fn new() -> (s: Self)
        ensures
            s.marks() == Seq::<Option<Mark>>::empty(),
            s.selectors() == Seq::<Selector>::empty(),
            s.pending() == Seq::<Mutation>::empty(),
    {
        Scene { marks: Vec::new(), selectors: Vec::new(), pending: Vec::new() }
    }

    /// The number of identities handed out so far.
    pub fn issued(&self) -> (n: usize)
        ensures
            n == self.marks().len(),
    {
        self.marks.len()
    }

    /// The live mark with this identity, if there is one.
    pub fn mark(&self, id: usize) -> (m: Option<Mark>)
        ensures
            m == if id < self.marks().len() {
                self.marks()[id as int]
            } else {
                None
            },
    {
        if id < self.marks.len() {
            self.marks[id]
        } else {
            None
        }
    }

    /// The number of selectors.
    pub fn selector_count(&self) -> (n: usize)
        ensures
            n == self.selectors().len(),
    {
        self.selectors.len()
    }

    /// The selector at `index`, if there is one.
    pub fn selector(&self, index: usize) -> (s: Option<Selector>)
        ensures
            s == if index < self.selectors().len() {
                Some(self.selectors()[index as int])
            } else {
                None
            },
    {
        if index < self.selectors.len() {
            Some(self.selectors[index])
        } else {
            None
        }
    }

    /// The number of mutations queued in this frame.
    pub fn pending_count(&self) -> (n: usize)
        ensures
            n == self.pending().len(),
    {
        self.pending.len()
    }

    /// Hands out a new identity and queues the mark's appearance.
    pub fn spawn_mark(&mut self, mark: Mark) -> (id: usize)
        ensures
            id == old(self).marks().len(),
            final(self).marks() == old(self).marks().push(None),
            final(self).pending() == old(self).pending().push(Mutation::SpawnMark { id, mark }),
            final(self).selectors() == old(self).selectors(),
    {
        let id = self.marks.len();
        self.marks.push(None);
        self.pending.push(Mutation::SpawnMark { id, mark });
        id
    }

    /// Queues the destruction of a mark.
    pub fn despawn_mark(&mut self, id: usize)
        ensures
            final(self).marks() == old(self).marks(),
            final(self).pending() == old(self).pending().push(Mutation::DespawnMark { id }),
            final(self).selectors() == old(self).selectors(),
    {
        self.pending.push(Mutation::DespawnMark { id });
    }

    /// Queues the destruction of several marks, in order.
    pub fn despawn_marks(&mut self, ids: &Vec<usize>)
        ensures
            final(self).marks() == old(self).marks(),
            final(self).pending() == old(self).pending() + despawns(ids@),
            final(self).selectors() == old(self).selectors(),
    {
        let mut i: usize = 0;
        while i < ids.len()
            invariant
                i <= ids.len(),
                self.marks() == old(self).marks(),
                self.selectors() == old(self).selectors(),
                self.pending() == old(self).pending() + despawns(ids@.take(i as int)),
            decreases ids.len() - i,
        {
            self.pending.push(Mutation::DespawnMark { id: ids[i] });
            i = i + 1;
            assert(self.pending() =~= old(self).pending() + despawns(ids@.take(i as int)));
        }
        assert(ids@.take(i as int) =~= ids@);
    }

    /// Queues the appearance of a selector.
    pub fn spawn_selector(&mut self, texture: usize, color: usize)
        ensures
            final(self).marks() == old(self).marks(),
            final(self).pending() == old(self).pending().push(
                Mutation::SpawnSelector { texture, color },
            ),
            final(self).selectors() == old(self).selectors(),
    {
        self.pending.push(Mutation::SpawnSelector { texture, color });
    }

    /// Shifts a selector. An index without a selector changes nothing.
    pub fn set_selector_offset(&mut self, index: usize, offset: u32)
        ensures
            final(self).marks() == old(self).marks(),
            final(self).pending() == old(self).pending(),
            final(self).selectors() == if index < old(self).selectors().len() {
                old(self).selectors().update(
                    index as int,
                    Selector { offset, ..old(self).selectors()[index as int] },
                )
            } else {
                old(self).selectors()
            },
    {
        if index < self.selectors.len() {
            let current = self.selectors[index];
            self.selectors[index] = Selector {
                texture: current.texture,
                color: current.color,
                offset,
            };
        }
    }

    /// Ends the frame: applies the queued mutations in order and returns
    /// them, so that a renderer can follow.
    pub fn end_frame(&mut self) -> (applied: Vec<Mutation>)
        ensures
            applied@ == old(self).pending(),
            final(self).pending() == Seq::<Mutation>::empty(),
            final(self).marks() == marks_after(old(self).marks(), old(self).pending()),
            final(self).selectors() == selectors_after(
                old(self).selectors(),
                old(self).pending(),
            ),
    {
        let mut applied: Vec<Mutation> = Vec::new();
        std::mem::swap(&mut applied, &mut self.pending);
        let mut i: usize = 0;
        assert(applied@.take(0) =~= Seq::<Mutation>::empty());
        while i < applied.len()
            invariant
                i <= applied.len(),
                applied@ == old(self).pending(),
                self.pending() == Seq::<Mutation>::empty(),
                self.marks() == marks_after(old(self).marks(), applied@.take(i as int)),
                self.selectors() == selectors_after(
                    old(self).selectors(),
                    applied@.take(i as int),
                ),
            decreases applied.len() - i,
        {
            let m = applied[i];
            assert(applied@.take(i + 1).drop_last() =~= applied@.take(i as int));
            assert(applied@.take(i + 1).last() == m);
            match m {
                Mutation::SpawnMark { id, mark } => {
                    if id < self.marks.len() {
                        self.marks[id] = Some(mark);
                    }
                },
                Mutation::DespawnMark { id } => {
                    if id < self.marks.len() {
                        self.marks[id] = None;
                    }
                },
                Mutation::SpawnSelector { texture, color } => {
                    self.selectors.push(Selector { texture, color, offset: 0 });
                },
            }
            i = i + 1;
        }
        assert(applied@.take(i as int) =~= applied@);
        applied
    }
}

} // verus!
