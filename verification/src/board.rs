//! The chalkboard: the one owner of the undo history, the surface, the
//! textures, the brush set and the active colour, with one operation for
//! each thing that can happen in a frame.

use vstd::prelude::*;
use crate::eraser::erase;
use crate::geometry::Point;
use crate::palette::{generate_variants, variant_of, PaletteError, PixelFormat, Texture, TextureView, PALETTE_SIZE};
use crate::random::pick_below;
use crate::scene::{
    despawns, is_live, lemma_marks_after_despawns, lemma_marks_after_len,
    lemma_marks_after_selector, lemma_marks_after_spawn, lemma_spawns_issued_despawns,
    marks_after, selectors_after, spawns_issued, within, Mark, Mutation, Scene, Selector,
};
use crate::stroke::{stroke_path, stroke_points};
use crate::textures::{BrushSet, TextureStore};
use crate::undo::{
    appended, appended_all, blank, committed, holds, lemma_appended_holds,
    lemma_committed_holds, lemma_newest_first_holds, lemma_undone_holds, newest_first,
    undo_removed, undone, valid_stack, UndoStack,
};

verus! {

/// How far a selector is shifted while the pointer hovers over it.
pub const HOVER_OFFSET: u32 = 16;

/// What the drawing button did in a frame.
#[derive(Clone, Copy, Debug, PartialEq, Eq, Structural)]
pub enum ButtonPhase {
    /// The button is up.
    Idle,
    /// The button went down in this frame.
    JustPressed,
    /// The button is down and was down before.
    Held,
    /// The button went up in this frame.
    JustReleased,
}

/// What the pointer does to a selector.
#[derive(Clone, Copy, Debug, PartialEq, Eq, Structural)]
pub enum Interaction {
    /// The pointer is elsewhere.
    Idle,
    /// The pointer is over the selector.
    Hovered,
    /// The selector is being pressed.
    Pressed,
}

/// The chalkboard as contracts see it.
pub struct BoardView {
    /// The undo history: groups of mark identities, oldest first.
    pub history: Seq<Seq<usize>>,
    /// The arena of marks, one slot for each identity.
    pub marks: Seq<Option<Mark>>,
    /// The palette selectors on the surface.
    pub selectors: Seq<Selector>,
    /// The mutations queued in this frame.
    pub pending: Seq<Mutation>,
    /// The texture store, one slot for each identity.
    pub textures: Seq<Option<TextureView>>,
    /// The brush set: the textures of each colour's stamps.
    pub brushes: Seq<Seq<usize>>,
    /// The selector palette: the selector icon, then its variants.
    pub chalks: Seq<usize>,
    /// The texture of the background, of which no palette is made.
    pub background: usize,
    /// The sources of which a palette has been made.
    pub processed: Seq<usize>,
    /// The active colour.
    pub active: usize,
    /// Where the pointer was when the drawing button was last seen down.
    pub anchor: Point,
    /// The stamp diameter.
    pub stamp: u32,
    /// The eraser radius.
    pub eraser_radius: u32,
}

/// The invariant of the chalkboard.
pub open spec fn valid_board(v: BoardView) -> bool {
    &&& valid_stack(v.history)
    &&& v.brushes.len() >= 1
    &&& v.chalks.len() >= 1
    &&& v.stamp > 0
    &&& v.anchor.in_range()
    &&& spawns_issued(v.marks.len() as int, v.pending)
    &&& forall|id: usize|
        is_live(marks_after(v.marks, v.pending), id as int) ==> #[trigger] holds(v.history, id)
}

/// No mark will be live when the frame ends.
pub open spec fn blank_after_frame(v: BoardView) -> bool {
    forall|id: int| !#[trigger] is_live(marks_after(v.marks, v.pending), id)
}

/// The identities of `count` marks placed in a row, the first of them
/// `first`.
pub open spec fn fresh_ids(first: int, count: nat) -> Seq<usize> {
    Seq::new(count, |k: int| (first + k) as usize)
}

/// The mutation queues the appearance of the mark `id` at `pos`, showing one
/// of the textures of `choices`.
pub open spec fn is_stamp(m: Mutation, id: int, pos: Point, choices: Seq<usize>) -> bool {
    match m {
        Mutation::SpawnMark { id: i, mark } => i == id && mark.pos == pos && choices.contains(
            mark.texture,
        ),
        _ => false,
    }
}

/// `after` is `before` with one mark of the active colour placed at each
/// point of `path`, in order: the marks have the next identities, join the
/// open group, and are queued to appear, each with some variant of the
/// active colour. Nothing else differs but, possibly, the anchor.
pub open spec fn stamped(before: BoardView, after: BoardView, path: Seq<Point>) -> bool {
    let first = before.marks.len() as int;
    let queued = before.pending.len() as int;
    &&& after == (BoardView {
        history: after.history,
        marks: after.marks,
        pending: after.pending,
        anchor: after.anchor,
        ..before
    })
    &&& after.marks == before.marks + Seq::new(path.len(), |k: int| None::<Mark>)
    &&& after.pending.len() == queued + path.len()
    &&& after.pending.take(queued) == before.pending
    &&& forall|k: int|
        0 <= k < path.len() ==> is_stamp(
            #[trigger] after.pending[queued + k],
            first + k,
            path[k],
            before.brushes[before.active as int],
        )
    &&& after.history == appended_all(before.history, fresh_ids(first, path.len()))
}

/// The requests for the selectors of a palette whose textures have the
/// identities from `first` on: variant `i` selects colour `i + 1`.
pub open spec fn selector_spawns(first: int, count: nat) -> Seq<Mutation> {
    Seq::new(
        count,
        |i: int| Mutation::SpawnSelector { texture: (first + i) as usize, color: (i + 1) as usize },
    )
}

/// The brush set after the first `count` variants of a palette, whose
/// textures have the identities from `first` on, have joined it: variant `i`
/// is added to the entry of colour `i + 1`, which is made where it is
/// missing. The entry of colour 0 and those beyond the palette stay.
pub open spec fn brushes_with_palette(brushes: Seq<Seq<usize>>, first: int, count: nat) -> Seq<
    Seq<usize>,
> {
    let len = if brushes.len() > count {
        brushes.len()
    } else {
        count + 1
    };
    Seq::new(
        len as nat,
        |c: int|
            if c == 0 || c > count {
                brushes[c]
            } else if c < brushes.len() {
                brushes[c].push((first + c - 1) as usize)
            } else {
                seq![(first + c - 1) as usize]
            },
    )
}

/// The board after the first `count` variants of `source` have been
/// registered: each is a new texture, and each is either a selector of the
/// palette, queued to appear, or a variant of the brush set.
pub open spec fn with_palette(
    v: BoardView,
    source: TextureView,
    for_selectors: bool,
    count: nat,
) -> BoardView {
    let first = v.textures.len() as int;
    let textures = v.textures + Seq::new(count, |i: int| Some(variant_of(source, i)));
    if for_selectors {
        BoardView {
            textures,
            chalks: v.chalks + fresh_ids(first, count),
            pending: v.pending + selector_spawns(first, count),
            ..v
        }
    } else {
        BoardView { textures, brushes: brushes_with_palette(v.brushes, first, count), ..v }
    }
}

/// A palette is due for the texture: it is not the background, no palette
/// has been made of it, and its pixels are there.
pub open spec fn palette_due(v: BoardView, id: usize) -> bool {
    &&& id != v.background
    &&& !v.processed.contains(id)
    &&& id < v.textures.len()
    &&& v.textures[id as int].is_some()
}

/// The board after the palette of the texture `id` has been generated. The
/// palette is one of selectors when the texture is the selector icon, else
/// one of brushes.
pub open spec fn generated(v: BoardView, id: usize) -> BoardView {
    BoardView {
        processed: v.processed.push(id),
        ..with_palette(
            v,
            v.textures[id as int].unwrap(),
            v.chalks[0] == id,
            PALETTE_SIZE as nat,
        )
    }
}

/// A palette is generated at most once for a source: once it has been, none
/// is due for it again.
pub proof fn lemma_generated_once(v: BoardView, id: usize)
    requires
        palette_due(v, id),
    ensures
        !palette_due(generated(v, id), id),
{
    let w = generated(v, id);
    assert(w.processed[v.processed.len() as int] == id);
}

/// Tells whether `x` occurs in `v`.
fn occurs(v: &Vec<usize>, x: usize) -> (found: bool)
    ensures
        found == v@.contains(x),
{
    let mut i: usize = 0;
    while i < v.len()
        invariant
            i <= v.len(),
            forall|j: int| 0 <= j < i ==> v@[j] != x,
        decreases v.len() - i,
    {
        if v[i] == x {
            return true;
        }
        i = i + 1;
    }
    false
}

/// The chalkboard.
pub struct Board {
    history: UndoStack,
    scene: Scene,
    textures: TextureStore,
    brushes: BrushSet,
    chalks: Vec<usize>,
    background: usize,
    processed: Vec<usize>,
    active: usize,
    anchor: Point,
    stamp: u32,
    eraser_radius: u32,
}

impl View for Board {
    type V = BoardView;

    closed spec fn view(&self) -> BoardView {
        BoardView {
            history: self.history@,
            marks: self.scene.marks(),
            selectors: self.scene.selectors(),
            pending: self.scene.pending(),
            textures: self.textures@,
            brushes: self.brushes@,
            chalks: self.chalks@,
            background: self.background,
            processed: self.processed@,
            active: self.active,
            anchor: self.anchor,
            stamp: self.stamp,
            eraser_radius: self.eraser_radius,
        }
    }
}

impl Board {
    /// The chalkboard's invariant holds.
    pub open spec fn wf(&self) -> bool {
        valid_board(self@)
    }

    /// A blank chalkboard. The background gets texture 0 and the selector
    /// icon texture 1, both still loading; the selector of colour 0 is
    /// queued; the brush set has an empty entry for colour 0.
    pub fn new(stamp: u32, eraser_radius: u32) -> (b: Self)
        requires
            stamp > 0,
        ensures
            b.wf(),
            b@ == (BoardView {
                history: blank(),
                marks: Seq::empty(),
                selectors: Seq::empty(),
                pending: seq![Mutation::SpawnSelector { texture: 1, color: 0 }],
                textures: seq![None, None],
                brushes: seq![Seq::empty()],
                chalks: seq![1usize],
                background: 0,
                processed: Seq::empty(),
                active: 0,
                anchor: Point { x: 0, y: 0 },
                stamp,
                eraser_radius,
            }),
    {
        let mut textures = TextureStore::new();
        let background = textures.reserve();
        let icon = textures.reserve();
        let mut scene = Scene::new();
        scene.spawn_selector(icon, 0);
        let mut chalks: Vec<usize> = Vec::new();
        chalks.push(icon);
        let b = Board {
            history: UndoStack::new(),
            scene,
            textures,
            brushes: BrushSet::new(Vec::new()),
            chalks,
            background,
            processed: Vec::new(),
            active: 0,
            anchor: Point { x: 0, y: 0 },
            stamp,
            eraser_radius,
        };
        proof {
            assert(b@.pending =~= seq![Mutation::SpawnSelector { texture: 1, color: 0 }]);
            assert(b@.textures =~= seq![None, None]);
            assert(b@.brushes =~= seq![Seq::empty()]);
            assert(b@.chalks =~= seq![1usize]);
            assert(b@.marks =~= Seq::empty());
            lemma_marks_after_len(b@.marks, b@.pending);
        }
        b
    }

    /// The undo history.
    pub fn history(&self) -> (h: &UndoStack)
        ensures
            h@ == self@.history,
    {
        &self.history
    }

    /// The surface.
    pub fn scene(&self) -> (s: &Scene)
        ensures
            s.marks() == self@.marks,
            s.selectors() == self@.selectors,
            s.pending() == self@.pending,
    {
        &self.scene
    }

    /// The texture store.
    pub fn textures(&self) -> (t: &TextureStore)
        ensures
            t@ == self@.textures,
    {
        &self.textures
    }

    /// The brush set.
    pub fn brushes(&self) -> (s: &BrushSet)
        ensures
            s@ == self@.brushes,
    {
        &self.brushes
    }

    /// The selector palette.
    pub fn chalks(&self) -> (c: &Vec<usize>)
        ensures
            c@ == self@.chalks,
    {
        &self.chalks
    }

    /// The texture of the background.
    pub fn background(&self) -> (id: usize)
        ensures
            id == self@.background,
    {
        self.background
    }

    /// The active colour.
    pub fn active_color(&self) -> (c: usize)
        ensures
            c == self@.active,
    {
        self.active
    }

    /// Where the pointer was when the drawing button was last seen down.
    pub fn anchor(&self) -> (p: Point)
        ensures
            p == self@.anchor,
    {
        self.anchor
    }

    /// The stamp diameter.
    pub fn stamp(&self) -> (s: u32)
        ensures
            s == self@.stamp,
    {
        self.stamp
    }

    /// The eraser radius.
    pub fn eraser_radius(&self) -> (r: u32)
        ensures
            r == self@.eraser_radius,
    {
        self.eraser_radius
    }

    /// Tells whether the active colour has a variant to stamp with.
    pub fn can_draw(&self) -> (ok: bool)
        ensures
            ok == (self@.active < self@.brushes.len() && self@.brushes[self@.active as int].len()
                > 0),
    {
        self.brushes.variant_count(self.active) > 0
    }

    /// Reserves the texture of one more base brush: a variant of colour 0
    /// that is still loading.
    pub fn add_base_brush(&mut self) -> (id: usize)
        requires
            old(self).wf(),
        ensures
            final(self).wf(),
            id == old(self)@.textures.len(),
            final(self)@ == (BoardView {
                textures: old(self)@.textures.push(None),
                brushes: old(self)@.brushes.update(0, old(self)@.brushes[0].push(id)),
                ..old(self)@
            }),
    {
        let id = self.textures.reserve();
        self.brushes.add_variant(0, id);
        id
    }

    /// Takes in the pixels of a texture that has finished loading, and tells
    /// whether its identity exists.
    pub fn load_texture(&mut self, id: usize, texture: Texture) -> (known: bool)
        requires
            old(self).wf(),
        ensures
            final(self).wf(),
            known == (id < old(self)@.textures.len()),
            final(self)@ == (BoardView {
                textures: if known {
                    old(self)@.textures.update(id as int, Some(texture@))
                } else {
                    old(self)@.textures
                },
                ..old(self)@
            }),
    {
        self.textures.fill(id, texture)
    }

    /// Places one mark of the active colour at `pos`, showing the colour's
    /// variant `variant`, and returns its identity. The mark joins the open
    /// group at once and appears on the surface when the frame ends.
    pub fn place_mark(&mut self, pos: Point, variant: usize) -> (id: usize)
        requires
            old(self).wf(),
            old(self)@.active < old(self)@.brushes.len(),
            variant < old(self)@.brushes[old(self)@.active as int].len(),
        ensures
            final(self).wf(),
            id == old(self)@.marks.len(),
            final(self)@ == (BoardView {
                history: appended(old(self)@.history, id),
                marks: old(self)@.marks.push(None),
                pending: old(self)@.pending.push(
                    Mutation::SpawnMark {
                        id,
                        mark: Mark {
                            pos,
                            texture: old(self)@.brushes[old(self)@.active as int][variant as int],
                        },
                    },
                ),
                ..old(self)@
            }),
    {
        let texture = self.brushes.variant(self.active, variant).unwrap();
        let mark = Mark { pos, texture };
        let id = self.scene.spawn_mark(mark);
        self.history.append(id);
        proof {
            let v = old(self)@;
            let w = self@;
            lemma_marks_after_spawn(v.marks, v.pending, id, mark);
            lemma_marks_after_len(v.marks, v.pending);
            assert forall|other: usize|
                is_live(marks_after(w.marks, w.pending), other as int) implies #[trigger] holds(
                w.history,
                other,
            ) by {
                if other != id {
                    assert(is_live(marks_after(v.marks, v.pending), other as int));
                    assert(holds(v.history, other));
                }
                lemma_appended_holds(v.history, id, other);
            }
        }
        id
    }

    /// Places one mark of the active colour at each point of `path`, each
    /// with a variant drawn at random, and returns their identities.
    pub fn stamp_path(&mut self, path: &Vec<Point>) -> (placed: Vec<usize>)
        requires
            old(self).wf(),
            path@.len() > 0 ==> old(self)@.active < old(self)@.brushes.len() && old(
                self,
            )@.brushes[old(self)@.active as int].len() > 0,
        ensures
            final(self).wf(),
            stamped(old(self)@, final(self)@, path@),
            final(self)@.anchor == old(self)@.anchor,
            placed@ == fresh_ids(old(self)@.marks.len() as int, path@.len()),
    {
        let mut placed: Vec<usize> = Vec::new();
        let mut rng = rand::thread_rng();
        let ghost before = self@;
        let ghost first = before.marks.len() as int;
        let ghost queued = before.pending.len() as int;
        let mut k: usize = 0;
        proof {
            assert(self@.marks =~= before.marks + Seq::new(0, |k: int| None::<Mark>));
            assert(self@.pending.take(queued) =~= before.pending);
            assert(placed@ =~= fresh_ids(first, 0));
        }
        while k < path.len()
            invariant
                k <= path@.len(),
                before == old(self)@,
                first == before.marks.len(),
                queued == before.pending.len(),
                self.wf(),
                path@.len() > 0 ==> before.active < before.brushes.len()
                    && before.brushes[before.active as int].len() > 0,
                stamped(before, self@, path@.take(k as int)),
                self@.anchor == before.anchor,
                placed@ == fresh_ids(first, k as nat),
            decreases path@.len() - k,
        {
            let ghost mid = self@;
            let n = self.brushes.variant_count(self.active);
            let variant = pick_below(&mut rng, n);
            let id = self.place_mark(path[k], variant);
            placed.push(id);
            proof {
                let now = self@;
                let done = path@.take(k as int);
                let next = path@.take(k + 1);
                assert(now.marks =~= before.marks + Seq::new(next.len(), |k: int| None::<Mark>));
                assert(now.pending.take(queued) =~= before.pending);
                assert forall|j: int| 0 <= j < next.len() implies is_stamp(
                    #[trigger] now.pending[queued + j],
                    first + j,
                    next[j],
                    before.brushes[before.active as int],
                ) by {
                    if j < k {
                        assert(now.pending[queued + j] == mid.pending[queued + j]);
                        assert(done[j] == next[j]);
                    }
                }
                assert(fresh_ids(first, next.len()).drop_last() =~= fresh_ids(first, done.len()));
                assert(fresh_ids(first, next.len()).last() == id);
                assert(placed@ =~= fresh_ids(first, (k + 1) as nat));
            }
            k = k + 1;
        }
        assert(path@.take(k as int) =~= path@);
        placed
    }

    /// One frame of the drawing button, with the pointer at `pos` or away
    /// from the surface. Returns the identities of the marks placed.
    ///
    /// Without a position nothing happens. A press moves the anchor to the
    /// pointer. While the button is held, the movement from the anchor to the
    /// pointer is stamped as `stroke_path` says, and the anchor follows. A
    /// release ends the stroke.
    pub fn pointer_frame(&mut self, pos: Option<Point>, phase: ButtonPhase) -> (placed: Vec<usize>)
        requires
            old(self).wf(),
            pos.is_some() ==> pos.unwrap().in_range(),
            pos.is_some() && phase == ButtonPhase::Held && pos.unwrap() != old(self)@.anchor
                ==> old(self)@.active < old(self)@.brushes.len() && old(self)@.brushes[old(
                self,
            )@.active as int].len() > 0,
        ensures
            final(self).wf(),
            pos.is_none() || phase == ButtonPhase::Idle ==> final(self)@ == old(self)@
                && placed@.len() == 0,
            pos.is_some() && phase == ButtonPhase::JustPressed ==> final(self)@ == (BoardView {
                anchor: pos.unwrap(),
                ..old(self)@
            }) && placed@.len() == 0,
            pos.is_some() && phase == ButtonPhase::JustReleased ==> final(self)@ == (BoardView {
                history: committed(old(self)@.history),
                ..old(self)@
            }) && placed@.len() == 0,
            pos.is_some() && phase == ButtonPhase::Held ==> {
                let path = stroke_path(old(self)@.anchor, pos.unwrap(), old(self)@.stamp as int);
                &&& stamped(old(self)@, final(self)@, path)
                &&& final(self)@.anchor == pos.unwrap()
                &&& placed@ == fresh_ids(old(self)@.marks.len() as int, path.len())
            },
    {
        match pos {
            None => Vec::new(),
            Some(p) => match phase {
                ButtonPhase::Idle => Vec::new(),
                ButtonPhase::JustPressed => {
                    self.anchor = p;
                    Vec::new()
                },
                ButtonPhase::JustReleased => {
                    self.history.commit();
                    proof {
                        let v = old(self)@;
                        assert forall|other: usize|
                            is_live(
                                marks_after(v.marks, v.pending),
                                other as int,
                            ) implies #[trigger] holds(committed(v.history), other) by {
                            assert(holds(v.history, other));
                            lemma_committed_holds(v.history, other);
                        }
                    }
                    Vec::new()
                },
                ButtonPhase::Held => {
                    let path = stroke_points(self.anchor, p, self.stamp);
                    let placed = self.stamp_path(&path);
                    self.anchor = p;
                    placed
                },
            },
        }
    }

    /// Takes back the latest stroke: its marks leave the history and their
    /// destruction is queued, newest first. Returns them. Marks that the
    /// eraser has already destroyed are destroyed again, which changes
    /// nothing. On a blank history nothing happens.
    pub fn undo(&mut self) -> (removed: Vec<usize>)
        requires
            old(self).wf(),
        ensures
            final(self).wf(),
            removed@ == undo_removed(old(self)@.history),
            final(self)@ == (BoardView {
                history: undone(old(self)@.history),
                pending: old(self)@.pending + despawns(removed@),
                ..old(self)@
            }),
    {
        let removed = self.history.undo();
        self.scene.despawn_marks(&removed);
        proof {
            let v = old(self)@;
            let w = self@;
            lemma_marks_after_despawns(v.marks, v.pending, removed@);
            lemma_marks_after_len(v.marks, v.pending);
            lemma_spawns_issued_despawns(v.marks.len() as int, v.pending, removed@);
            assert forall|other: usize|
                is_live(marks_after(w.marks, w.pending), other as int) implies #[trigger] holds(
                w.history,
                other,
            ) by {
                assert(is_live(marks_after(v.marks, v.pending), other as int));
                assert(holds(v.history, other));
                lemma_undone_holds(v.history, other);
                if removed@.contains(other) {
                    let i = choose|i: int| 0 <= i < removed@.len() && removed@[i] == other;
                    assert(removed@[i] == other as int);
                }
            }
        }
        removed
    }

    /// Wipes the board: the history is left with one empty group and the
    /// destruction of every mark it held is queued, newest first. Returns
    /// them. No mark is live once the frame ends.
    pub fn clear_all(&mut self) -> (removed: Vec<usize>)
        requires
            old(self).wf(),
        ensures
            final(self).wf(),
            removed@ == newest_first(old(self)@.history),
            final(self)@ == (BoardView {
                history: blank(),
                pending: old(self)@.pending + despawns(removed@),
                ..old(self)@
            }),
            blank_after_frame(final(self)@),
    {
        let removed = self.history.clear_all();
        self.scene.despawn_marks(&removed);
        proof {
            let v = old(self)@;
            let w = self@;
            lemma_marks_after_despawns(v.marks, v.pending, removed@);
            lemma_marks_after_len(v.marks, v.pending);
            lemma_spawns_issued_despawns(v.marks.len() as int, v.pending, removed@);
            assert forall|id: int| !#[trigger] is_live(marks_after(w.marks, w.pending), id) by {
                if is_live(marks_after(w.marks, w.pending), id) {
                    self.scene.lemma_issued_bound();
                    let other = id as usize;
                    assert(is_live(marks_after(v.marks, v.pending), other as int));
                    assert(holds(v.history, other));
                    lemma_newest_first_holds(v.history, other);
                    let i = choose|i: int| 0 <= i < removed@.len() && removed@[i] == other;
                    assert(removed@[i] == id);
                }
            }
        }
        removed
    }

    /// One frame of the eraser, with the pointer at `pos` or away from the
    /// surface. While the erase button is held, the destruction of every live
    /// mark within the eraser radius of the pointer is queued; their
    /// identities are returned in rising order. The history is not told.
    pub fn erase_frame(&mut self, pos: Option<Point>, held: bool) -> (erased: Vec<usize>)
        requires
            old(self).wf(),
        ensures
            final(self).wf(),
            final(self)@ == (BoardView {
                pending: old(self)@.pending + despawns(erased@),
                ..old(self)@
            }),
            forall|i: int, j: int| 0 <= i < j < erased@.len() ==> erased@[i] < erased@[j],
            forall|id: usize|
                erased@.contains(id) <==> held && pos.is_some() && is_live(
                    old(self)@.marks,
                    id as int,
                ) && within(
                    old(self)@.marks[id as int].unwrap().pos,
                    pos.unwrap(),
                    old(self)@.eraser_radius as int,
                ),
    {
        let erased = match pos {
            Some(p) => if held {
                erase(&mut self.scene, p, self.eraser_radius)
            } else {
                Vec::new()
            },
            None => Vec::new(),
        };
        proof {
            let v = old(self)@;
            let w = self@;
            assert(w.pending =~= v.pending + despawns(erased@));
            lemma_marks_after_despawns(v.marks, v.pending, erased@);
            lemma_marks_after_len(v.marks, v.pending);
            lemma_spawns_issued_despawns(v.marks.len() as int, v.pending, erased@);
            assert forall|other: usize|
                is_live(marks_after(w.marks, w.pending), other as int) implies #[trigger] holds(
                w.history,
                other,
            ) by {
                assert(is_live(marks_after(v.marks, v.pending), other as int));
            }
        }
        erased
    }

    /// Ends the frame: applies the queued mutations in order and returns
    /// them, so that a renderer can follow.
    pub fn end_frame(&mut self) -> (applied: Vec<Mutation>)
        requires
            old(self).wf(),
        ensures
            final(self).wf(),
            applied@ == old(self)@.pending,
            final(self)@ == (BoardView {
                marks: marks_after(old(self)@.marks, old(self)@.pending),
                selectors: selectors_after(old(self)@.selectors, old(self)@.pending),
                pending: Seq::empty(),
                ..old(self)@
            }),
    {
        let applied = self.scene.end_frame();
        proof {
            lemma_marks_after_len(old(self)@.marks, old(self)@.pending);
        }
        applied
    }

    /// The pointer does something to the selector at `index`. Hovering
    /// shifts it by `HOVER_OFFSET`, leaving it shifts it back, and pressing
    /// it makes its colour the active one. An index without a selector
    /// changes nothing.
    pub fn interact(&mut self, index: usize, interaction: Interaction)
        requires
            old(self).wf(),
        ensures
            final(self).wf(),
            index >= old(self)@.selectors.len() ==> final(self)@ == old(self)@,
            index < old(self)@.selectors.len() ==> final(self)@ == (match interaction {
                Interaction::Idle => BoardView {
                    selectors: old(self)@.selectors.update(
                        index as int,
                        Selector { offset: 0, ..old(self)@.selectors[index as int] },
                    ),
                    ..old(self)@
                },
                Interaction::Hovered => BoardView {
                    selectors: old(self)@.selectors.update(
                        index as int,
                        Selector { offset: HOVER_OFFSET, ..old(self)@.selectors[index as int] },
                    ),
                    ..old(self)@
                },
                Interaction::Pressed => BoardView {
                    active: old(self)@.selectors[index as int].color,
                    ..old(self)@
                },
            }),
    {
        match interaction {
            Interaction::Idle => {
                self.scene.set_selector_offset(index, 0);
            },
            Interaction::Hovered => {
                self.scene.set_selector_offset(index, HOVER_OFFSET);
            },
            Interaction::Pressed => {
                match self.scene.selector(index) {
                    Some(selector) => {
                        self.active = selector.color;
                    },
                    None => {},
                }
            },
        }
    }

    /// A texture has finished loading. Unless it is the background, has had
    /// its palette made already or has no pixels in the store, its twelve
    /// variants are generated and registered as new textures, whose
    /// identities are returned. The variants of the selector icon join the
    /// selector palette, each with a selector queued to appear; those of any
    /// other texture join the brush set. A source in an unsupported layout is
    /// refused and nothing changes.
    pub fn texture_loaded(&mut self, id: usize) -> (out: Result<Vec<usize>, PaletteError>)
        requires
            old(self).wf(),
        ensures
            final(self).wf(),
            !palette_due(old(self)@, id) ==> final(self)@ == old(self)@ && out.is_ok()
                && out.unwrap()@.len() == 0,
            palette_due(old(self)@, id) && old(self)@.textures[id as int].unwrap().format
                != PixelFormat::Rgba8 ==> final(self)@ == old(self)@ && out == Err::<
                Vec<usize>,
                PaletteError,
            >(PaletteError::UnsupportedFormat),
            palette_due(old(self)@, id) && old(self)@.textures[id as int].unwrap().format
                == PixelFormat::Rgba8 ==> final(self)@ == generated(old(self)@, id) && out.is_ok()
                && out.unwrap()@ == fresh_ids(
                old(self)@.textures.len() as int,
                PALETTE_SIZE as nat,
            ),
    {
        if id == self.background || occurs(&self.processed, id) {
            return Ok(Vec::new());
        }
        let made = match self.textures.get(id) {
            None => {
                return Ok(Vec::new());
            },
            Some(source) => generate_variants(source),
        };
        let mut variants = match made {
            Err(e) => {
                return Err(e);
            },
            Ok(v) => v,
        };
        let for_selectors = self.chalks[0] == id;
        let ghost before = self@;
        let ghost source = before.textures[id as int].unwrap();
        let ghost first = before.textures.len() as int;
        let mut ids: Vec<usize> = Vec::new();
        let mut step: usize = 0;
        proof {
            let w = with_palette(before, source, for_selectors, 0);
            assert(w.textures =~= before.textures);
            assert(w.chalks =~= before.chalks);
            assert(w.pending =~= before.pending);
            assert(brushes_with_palette(before.brushes, first, 0) =~= before.brushes);
            assert(ids@ =~= fresh_ids(first, 0));
        }
        while step < PALETTE_SIZE
            invariant
                step <= PALETTE_SIZE,
                self.wf(),
                before == old(self)@,
                valid_board(before),
                first == before.textures.len(),
                variants@.len() == PALETTE_SIZE - step,
                forall|j: int|
                    0 <= j < variants@.len() ==> (#[trigger] variants@[j])@ == variant_of(
                        source,
                        step + j,
                    ),
                self@ == with_palette(before, source, for_selectors, step as nat),
                ids@ == fresh_ids(first, step as nat),
            decreases PALETTE_SIZE - step,
        {
            let ghost mid = self@;
            let ghost rest = variants@;
            let variant = variants.remove(0);
            assert(variant@ == variant_of(source, step as int)) by {
                assert(rest[0]@ == variant_of(source, step + 0));
            }
            assert forall|j: int| 0 <= j < variants@.len() implies (#[trigger] variants@[j])@
                == variant_of(source, step + 1 + j) by {
                assert(variants@[j] == rest[j + 1]);
            }
            let texture = self.textures.add(variant);
            if for_selectors {
                self.chalks.push(texture);
                self.scene.spawn_selector(texture, step + 1);
                proof {
                    lemma_marks_after_selector(mid.marks, mid.pending, texture, (step + 1) as usize);
                }
            } else {
                self.brushes.add_variant(step + 1, texture);
            }
            ids.push(texture);
            proof {
                let now = self@;
                let w = with_palette(before, source, for_selectors, (step + 1) as nat);
                assert(now.textures =~= w.textures);
                assert(now.chalks =~= w.chalks);
                assert(now.pending =~= w.pending);
                assert(now.brushes =~= w.brushes);
                assert(ids@ =~= fresh_ids(first, (step + 1) as nat));
            }
            step = step + 1;
        }
        self.processed.push(id);
        Ok(ids)
    }
}

} // verus!
