//! The texture store and the brush set.
//!
//! A texture's identity is its slot in the store. A slot is reserved when
//! loading begins and filled when it ends; generated variants are added
//! whole.

use vstd::prelude::*;
use crate::palette::{Texture, TextureView};

verus! {

/// What a slot of the store holds, as contracts see it.
pub open spec fn slot_view(slot: Option<Texture>) -> Option<TextureView> {
    match slot {
        Some(t) => Some(t@),
        None => None,
    }
}

/// The texture store.
pub struct TextureStore {
    slots: Vec<Option<Texture>>,
}

impl View for TextureStore {
    type V = Seq<Option<TextureView>>;

    /// One entry for every identity: the texture, or nothing while it loads.
    closed spec fn view(&self) -> Seq<Option<TextureView>> {
        Seq::new(self.slots@.len(), |i: int| slot_view(self.slots@[i]))
    }
}

impl TextureStore {
    /// An empty store.
    pub fn new() -> (s: Self)
        ensures
            s@ == Seq::<Option<TextureView>>::empty(),
    {
        let s = TextureStore { slots: Vec::new() };
        assert(s@ =~= Seq::<Option<TextureView>>::empty());
        s
    }

    /// The number of identities handed out.
    pub fn len(&self) -> (n: usize)
        ensures
            n == self@.len(),
    {
        self.slots.len()
    }

    /// Hands out the identity of a texture that is still loading.
    pub fn reserve(&mut self) -> (id: usize)
        ensures
            id == old(self)@.len(),
            final(self)@ == old(self)@.push(None),
    {
        let id = self.slots.len();
        self.slots.push(None);
        assert(self@ =~= old(self)@.push(None));
        id
    }

    /// Adds a texture and hands out its identity.
    pub fn add(&mut self, texture: Texture) -> (id: usize)
        ensures
            id == old(self)@.len(),
            final(self)@ == old(self)@.push(Some(texture@)),
    {
        let id = self.slots.len();
        self.slots.push(Some(texture));
        assert(self@ =~= old(self)@.push(Some(texture@)));
        id
    }

    /// Fills a reserved slot with the loaded texture and tells whether the
    /// identity exists. An identity that was never handed out changes
    /// nothing.
    pub fn fill(&mut self, id: usize, texture: Texture) -> (known: bool)
        ensures
            known == (id < old(self)@.len()),
            final(self)@ == if known {
                old(self)@.update(id as int, Some(texture@))
            } else {
                old(self)@
            },
    {
        if id < self.slots.len() {
            self.slots[id] = Some(texture);
            assert(self@ =~= old(self)@.update(id as int, Some(texture@)));
            true
        } else {
            false
        }
    }

    /// Looks a texture up by its identity.
    pub fn get(&self, id: usize) -> (found: Option<&Texture>)
        ensures
            slot_view_ref(found) == if id < self@.len() {
                self@[id as int]
            } else {
                None
            },
    {
        if id < self.slots.len() {
            self.slots[id].as_ref()
        } else {
            None
        }
    }
}

/// What a looked-up texture is, as contracts see it.
pub open spec fn slot_view_ref(found: Option<&Texture>) -> Option<TextureView> {
    match found {
        Some(t) => Some(t@),
        None => None,
    }
}

/// The brush set with one more variant for a colour: added to the colour's
/// entry where there is one, else as a new last entry.
pub open spec fn with_variant(s: Seq<Seq<usize>>, color: int, texture: usize) -> Seq<Seq<usize>> {
    if 0 <= color < s.len() {
        s.update(color, s[color].push(texture))
    } else {
        s.push(seq![texture])
    }
}

/// The brush set: for every colour index the textures that a stamp of that
/// colour may show.
pub struct BrushSet {
    colors: Vec<Vec<usize>>,
}

impl View for BrushSet {
    type V = Seq<Seq<usize>>;

    closed spec fn view(&self) -> Seq<Seq<usize>> {
        Seq::new(self.colors@.len(), |i: int| self.colors@[i]@)
    }
}

impl BrushSet {
    /// The entry of colour 0 is always there.
    pub open spec fn wf(&self) -> bool {
        self@.len() >= 1
    }

    /// The colour has at least one variant to stamp with.
    pub open spec fn has_variant(&self, color: int) -> bool {
        0 <= color < self@.len() && self@[color].len() > 0
    }

    /// A brush set with the base textures as the variants of colour 0.
    pub fn new(base: Vec<usize>) -> (s: Self)
        ensures
            s.wf(),
            s@ == seq![base@],
    {
        let mut colors: Vec<Vec<usize>> = Vec::new();
        colors.push(base);
        let s = BrushSet { colors };
        assert(s@ =~= seq![base@]);
        s
    }

    /// The number of colours with an entry.
    pub fn color_count(&self) -> (n: usize)
        ensures
            n == self@.len(),
    {
        self.colors.len()
    }

    /// The number of variants of a colour; none for a colour without entry.
    pub fn variant_count(&self, color: usize) -> (n: usize)
        ensures
            n == if color < self@.len() {
                self@[color as int].len()
            } else {
                0
            },
    {
        if color < self.colors.len() {
            self.colors[color].len()
        } else {
            0
        }
    }

    /// The texture of one variant of a colour.
    pub fn variant(&self, color: usize, index: usize) -> (t: Option<usize>)
        ensures
            t == if color < self@.len() && index < self@[color as int].len() {
                Some(self@[color as int][index as int])
            } else {
                None
            },
    {
        if color < self.colors.len() {
            let entry = &self.colors[color];
            if index < entry.len() {
                Some(entry[index])
            } else {
                None
            }
        } else {
            None
        }
    }

    /// Adds a variant for a colour.
    pub fn add_variant(&mut self, color: usize, texture: usize)
        requires
            old(self).wf(),
        ensures
            final(self).wf(),
            final(self)@ == with_variant(old(self)@, color as int, texture),
    {
        if color < self.colors.len() {
            self.colors[color].push(texture);
            assert(self@ =~= with_variant(old(self)@, color as int, texture));
        } else {
            let mut entry: Vec<usize> = Vec::new();
            entry.push(texture);
            self.colors.push(entry);
            assert(self@ =~= with_variant(old(self)@, color as int, texture));
        }
    }
}

} // verus!
