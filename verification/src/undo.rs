//! The grouped undo history: a stack of groups of mark identities, one group
//! for each stroke, the open group on top.

use vstd::prelude::*;

verus! {

/// A stack is valid when it holds at least one group and only its top group
/// may be empty.
pub open spec fn valid_stack(s: Seq<Seq<usize>>) -> bool {
    &&& s.len() >= 1
    &&& forall|i: int| 0 <= i < s.len() - 1 ==> (#[trigger] s[i]).len() > 0
}

/// The stack after a mark has joined the open group.
pub open spec fn appended(s: Seq<Seq<usize>>, id: usize) -> Seq<Seq<usize>> {
    s.update(s.len() - 1, s.last().push(id))
}

/// The stack after a stroke has ended: a new empty group is opened unless the
/// open group is still empty.
pub open spec fn committed(s: Seq<Seq<usize>>) -> Seq<Seq<usize>> {
    if s.last().len() > 0 {
        s.push(Seq::empty())
    } else {
        s
    }
}

/// The stack after one undo step.
pub open spec fn undone(s: Seq<Seq<usize>>) -> Seq<Seq<usize>> {
    if s.last().len() > 0 {
        s.update(s.len() - 1, Seq::empty())
    } else if s.len() >= 2 {
        s.drop_last().drop_last().push(Seq::empty())
    } else {
        s
    }
}

/// The marks that one undo step destroys, newest first.
pub open spec fn undo_removed(s: Seq<Seq<usize>>) -> Seq<usize> {
    if s.last().len() > 0 {
        s.last().reverse()
    } else if s.len() >= 2 {
        s[s.len() - 2].reverse()
    } else {
        Seq::empty()
    }
}

/// Every mark of the stack, newest first: the order in which clearing the
/// canvas destroys them.
pub open spec fn newest_first(s: Seq<Seq<usize>>) -> Seq<usize>
    decreases s.len(),
{
    if s.len() == 0 {
        Seq::empty()
    } else {
        s.last().reverse() + newest_first(s.drop_last())
    }
}

/// Some group of the stack holds the mark.
pub open spec fn holds(s: Seq<Seq<usize>>, id: usize) -> bool {
    exists|i: int| 0 <= i < s.len() && (#[trigger] s[i]).contains(id)
}

/// The stack of a blank canvas: one empty group.
pub open spec fn blank() -> Seq<Seq<usize>> {
    seq![Seq::<usize>::empty()]
}

/// The stack after the marks of `ids` have joined the open group in turn.
pub open spec fn appended_all(s: Seq<Seq<usize>>, ids: Seq<usize>) -> Seq<Seq<usize>>
    decreases ids.len(),
{
    if ids.len() == 0 {
        s
    } else {
        appended(appended_all(s, ids.drop_last()), ids.last())
    }
}

/// The stack after `n` undo steps.
pub open spec fn undone_times(s: Seq<Seq<usize>>, n: nat) -> Seq<Seq<usize>>
    decreases n,
{
    if n == 0 {
        s
    } else {
        undone(undone_times(s, (n - 1) as nat))
    }
}

/// Appending, committing and undoing keep a stack valid.
pub proof fn lemma_steps_keep_valid(s: Seq<Seq<usize>>, id: usize)
    requires
        valid_stack(s),
    ensures
        valid_stack(appended(s, id)),
        valid_stack(committed(s)),
        valid_stack(undone(s)),
{
}

/// Marks that join the open group in turn end up behind the marks that it
/// held, in the order in which they came; the groups below stay as they were.
pub proof fn lemma_appended_all(s: Seq<Seq<usize>>, ids: Seq<usize>)
    requires
        valid_stack(s),
    ensures
        valid_stack(appended_all(s, ids)),
        appended_all(s, ids) == s.update(s.len() - 1, s.last() + ids),
    decreases ids.len(),
{
    if ids.len() == 0 {
        assert(s.last() + ids =~= s.last());
        assert(s.update(s.len() - 1, s.last()) =~= s);
    } else {
        lemma_appended_all(s, ids.drop_last());
        assert((s.last() + ids.drop_last()).push(ids.last()) =~= s.last() + ids);
        assert(appended_all(s, ids) =~= s.update(s.len() - 1, s.last() + ids));
    }
}

/// Undo right after a stroke takes back exactly that stroke. When a stroke
/// that starts on an empty open group places the marks `ids`, at least one,
/// then the open group holds exactly those marks until the release, and an
/// undo, before or after the release, removes exactly those marks and leaves
/// the stack as it was before the stroke.
pub proof fn lemma_undo_takes_back_stroke(s: Seq<Seq<usize>>, ids: Seq<usize>)
    requires
        valid_stack(s),
        s.last().len() == 0,
        ids.len() > 0,
    ensures
        appended_all(s, ids).last() == ids,
        undo_removed(appended_all(s, ids)) == ids.reverse(),
        undone(appended_all(s, ids)) == s,
        undo_removed(committed(appended_all(s, ids))) == ids.reverse(),
        undone(committed(appended_all(s, ids))) == s,
{
    lemma_appended_all(s, ids);
    let drawn = appended_all(s, ids);
    assert(s.last() + ids =~= ids);
    assert(s.last() =~= Seq::<usize>::empty());
    assert(undone(drawn) =~= s);
    let done = committed(drawn);
    assert(done =~= drawn.push(Seq::empty()));
    assert(done[done.len() - 2] == ids);
    assert(undone(done) =~= s);
}

/// Undo on a blank canvas does nothing, however often it is repeated.
pub proof fn lemma_undo_on_blank(n: nat)
    ensures
        undone_times(blank(), n) == blank(),
        undo_removed(blank()) == Seq::<usize>::empty(),
    decreases n,
{
    if n > 0 {
        lemma_undo_on_blank((n - 1) as nat);
    }
}

/// No number of undo steps leaves a stack without a group.
pub proof fn lemma_undo_keeps_a_group(s: Seq<Seq<usize>>, n: nat)
    requires
        valid_stack(s),
    ensures
        valid_stack(undone_times(s, n)),
        undone_times(s, n).len() >= 1,
    decreases n,
{
    if n > 0 {
        lemma_undo_keeps_a_group(s, (n - 1) as nat);
    }
}

/// Clearing destroys exactly the marks that the stack holds.
pub proof fn lemma_newest_first_holds(s: Seq<Seq<usize>>, id: usize)
    ensures
        newest_first(s).contains(id) <==> holds(s, id),
    decreases s.len(),
{
    if s.len() == 0 {
    } else {
        let rest = s.drop_last();
        lemma_newest_first_holds(rest, id);
        let top = s.last().reverse();
        let all = newest_first(s);
        assert(all == top + newest_first(rest));
        if all.contains(id) {
            let j = choose|j: int| 0 <= j < all.len() && all[j] == id;
            if j < top.len() {
                assert(s.last()[s.last().len() - 1 - j] == id);
                assert(s[s.len() - 1].contains(id));
            } else {
                assert(newest_first(rest)[j - top.len()] == id);
                let i = choose|i: int| 0 <= i < rest.len() && (#[trigger] rest[i]).contains(id);
                assert(s[i].contains(id));
            }
        }
        if holds(s, id) {
            let i = choose|i: int| 0 <= i < s.len() && (#[trigger] s[i]).contains(id);
            if i == s.len() - 1 {
                let j = choose|j: int| 0 <= j < s[i].len() && s[i][j] == id;
                assert(top[s[i].len() - 1 - j] == id);
                assert(all[s[i].len() - 1 - j] == id);
            } else {
                assert(rest[i].contains(id));
                let j = choose|j: int|
                    0 <= j < newest_first(rest).len() && newest_first(rest)[j] == id;
                assert(all[top.len() + j] == id);
            }
        }
    }
}

/// A mark that joins the open group is held, and so is every mark that was.
pub proof fn lemma_appended_holds(s: Seq<Seq<usize>>, id: usize, other: usize)
    requires
        valid_stack(s),
        holds(s, other) || other == id,
    ensures
        holds(appended(s, id), other),
{
    let t = appended(s, id);
    let top = s.len() - 1;
    if other == id {
        assert(t[top][s[top].len() as int] == id);
        assert(t[top].contains(id));
    } else {
        let i = choose|i: int| 0 <= i < s.len() && (#[trigger] s[i]).contains(other);
        if i == top {
            let j = choose|j: int| 0 <= j < s[i].len() && s[i][j] == other;
            assert(t[top][j] == other);
            assert(t[top].contains(other));
        } else {
            assert(t[i].contains(other));
        }
    }
}

/// The end of a stroke lets no mark go.
pub proof fn lemma_committed_holds(s: Seq<Seq<usize>>, other: usize)
    requires
        valid_stack(s),
        holds(s, other),
    ensures
        holds(committed(s), other),
{
    let i = choose|i: int| 0 <= i < s.len() && (#[trigger] s[i]).contains(other);
    assert(committed(s)[i].contains(other));
}

/// A mark that an undo step does not return for destruction is still held.
pub proof fn lemma_undone_holds(s: Seq<Seq<usize>>, other: usize)
    requires
        valid_stack(s),
        holds(s, other),
    ensures
        holds(undone(s), other) || undo_removed(s).contains(other),
{
    let i = choose|i: int| 0 <= i < s.len() && (#[trigger] s[i]).contains(other);
    let j = choose|j: int| 0 <= j < s[i].len() && s[i][j] == other;
    let gone = if s.last().len() > 0 {
        s.len() - 1
    } else {
        s.len() - 2
    };
    if i == gone {
        assert(s[i].reverse()[s[i].len() - 1 - j] == other);
        assert(undo_removed(s).contains(other));
    } else {
        assert(undone(s)[i].contains(other));
    }
}

/// The undo history.
pub struct UndoStack {
    groups: Vec<Vec<usize>>,
}

impl View for UndoStack {
    type V = Seq<Seq<usize>>;

    /// The groups, oldest first, each with its marks in the order they were
    /// placed.
    closed spec fn view(&self) -> Seq<Seq<usize>> {
        Seq::new(self.groups@.len(), |i: int| self.groups@[i]@)
    }
}

/// Moves the marks of `group` to the end of `removed`, last mark first.
fn drain_newest_first(group: Vec<usize>, removed: &mut Vec<usize>)
    ensures
        final(removed)@ == old(removed)@ + group@.reverse(),
{
    let mut group = group;
    let ghost whole = group@;
    while group.len() > 0
        invariant
            group@ == whole.take(group@.len() as int),
            group@.len() <= whole.len(),
            removed@ == old(removed)@ + whole.skip(group@.len() as int).reverse(),
        decreases group@.len(),
    {
        let id = group.pop().unwrap();
        removed.push(id);
        proof {
            let n = group@.len() as int;
            assert(group@ =~= whole.take(n));
            let tail = whole.skip(n);
            let rest = whole.skip(n + 1);
            assert(tail.reverse() =~= rest.reverse().push(id));
            assert(removed@ =~= old(removed)@ + tail.reverse());
        }
    }
    assert(whole.skip(0) =~= whole);
}

impl UndoStack {
    /// The stack's invariant.
    pub open spec fn wf(&self) -> bool {
        valid_stack(self@)
    }

    /// A history with one empty group.
    pub fn new() -> (s: Self)
        ensures
            s.wf(),
            s@ == blank(),
    {
        let mut groups: Vec<Vec<usize>> = Vec::new();
        groups.push(Vec::new());
        let s = UndoStack { groups };
        assert(s@ =~= blank());
        s
    }

    /// The number of groups.
    pub fn depth(&self) -> (n: usize)
        ensures
            n == self@.len(),
    {
        self.groups.len()
    }

    /// The number of marks in the open group.
    pub fn open_len(&self) -> (n: usize)
        requires
            self.wf(),
        ensures
            n == self@.last().len(),
    {
        self.groups[self.groups.len() - 1].len()
    }

    /// The marks of one group, in the order they were placed.
    pub fn group(&self, index: usize) -> (marks: Option<Vec<usize>>)
        ensures
            index < self@.len() ==> marks.is_some() && marks.unwrap()@ == self@[index as int],
            index >= self@.len() ==> marks.is_none(),
    {
        if index < self.groups.len() {
            Some(self.groups[index].clone())
        } else {
            None
        }
    }

    /// Adds a mark to the open group.
    pub fn append(&mut self, id: usize)
        requires
            old(self).wf(),
        ensures
            final(self).wf(),
            final(self)@ == appended(old(self)@, id),
    {
        let mut top = self.groups.pop().unwrap();
        top.push(id);
        self.groups.push(top);
        assert(self@ =~= appended(old(self)@, id));
    }

    /// Ends a stroke: opens a new empty group unless the open group is empty.
    pub fn commit(&mut self)
        requires
            old(self).wf(),
        ensures
            final(self).wf(),
            final(self)@ == committed(old(self)@),
    {
        if self.groups[self.groups.len() - 1].len() > 0 {
            self.groups.push(Vec::new());
            assert(self@ =~= committed(old(self)@));
        }
    }

    /// Takes back the latest stroke and returns its marks, newest first, for
    /// destruction.
    ///
    /// An open group that holds marks is emptied and stays. Otherwise the
    /// group below it, if there is one, is emptied and leaves the stack.
    /// Otherwise nothing changes.
    pub fn undo(&mut self) -> (removed: Vec<usize>)
        requires
            old(self).wf(),
        ensures
            final(self).wf(),
            final(self)@ == undone(old(self)@),
            removed@ == undo_removed(old(self)@),
    {
        let mut removed: Vec<usize> = Vec::new();
        let top = self.groups.pop().unwrap();
        if top.len() > 0 {
            drain_newest_first(top, &mut removed);
            self.groups.push(Vec::new());
            assert(self@ =~= undone(old(self)@));
            assert(removed@ =~= undo_removed(old(self)@));
        } else if self.groups.len() > 0 {
            let below = self.groups.pop().unwrap();
            drain_newest_first(below, &mut removed);
            assert(top@ =~= Seq::<usize>::empty());
            self.groups.push(top);
            assert(self@ =~= undone(old(self)@));
            assert(removed@ =~= undo_removed(old(self)@));
        } else {
            self.groups.push(top);
            assert(self@ =~= undone(old(self)@));
        }
        removed
    }

    /// Empties the history and returns every mark it held, newest first, for
    /// destruction. One empty group is left.
    pub fn clear_all(&mut self) -> (removed: Vec<usize>)
        ensures
            final(self).wf(),
            final(self)@ == blank(),
            removed@ == newest_first(old(self)@),
    {
        let mut removed: Vec<usize> = Vec::new();
        while self.groups.len() > 0
            invariant
                self@.len() <= old(self)@.len(),
                self@ == old(self)@.take(self@.len() as int),
                newest_first(old(self)@) == removed@ + newest_first(self@),
            decreases self@.len(),
        {
            let ghost before = self@;
            let top = self.groups.pop().unwrap();
            drain_newest_first(top, &mut removed);
            proof {
                assert(self@ =~= before.drop_last());
                assert(self@ =~= old(self)@.take(self@.len() as int));
                assert(removed@ + newest_first(self@) =~= newest_first(old(self)@));
            }
        }
        self.groups.push(Vec::new());
        assert(self@ =~= blank());
        assert(newest_first(Seq::<Seq<usize>>::empty()) =~= Seq::<usize>::empty());
        assert(removed@ =~= newest_first(old(self)@));
        removed
    }
}

} // verus!
