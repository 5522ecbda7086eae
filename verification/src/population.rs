//! Individuals and the store that owns them.
//!
//! The store is an arena: an individual's id is the index of its slot, ids
//! are handed out in increasing order and never reused, and a removed
//! individual leaves an empty slot behind. Beside the arena the store keeps,
//! for every root, the list of its children.

use crate::fixed::Vec3;
use crate::gene::ColorGroup;
use crate::mover::{Lifetime, Mover};
use vstd::prelude::*;

verus! {

/// The place of an individual in the two-level hierarchy.
#[derive(Clone, Copy, Debug, PartialEq, Eq)]
pub enum Role {
    /// A top-level individual; it may own children.
    Root,
    /// An individual owned by the root `parent`; it owns nothing itself.
    Child { parent: usize },
}

/// One member of the population.
///
/// The position of a root is absolute. The position of a child is its offset
/// from its parent.
#[derive(Clone, Copy, Debug, PartialEq, Eq)]
pub struct Individual {
    pub id: usize,
    pub position: Vec3,
    /// Present on individuals that take part in movement.
    pub mover: Option<Mover>,
    pub gene: ColorGroup,
    pub role: Role,
    /// Present on individuals that expire on their own.
    pub lifetime: Option<Lifetime>,
}

impl Individual {
    /// The gene is a declared colour group and the velocity, if any, can be
    /// negated.
    pub open spec fn wf(self) -> bool {
        &&& self.gene.in_domain()
        &&& (self.mover matches Some(m) ==> m.wf())
    }
}

/// Slot `id` exists and holds an individual.
pub open spec fn is_live(view: Seq<Option<Individual>>, id: int) -> bool {
    0 <= id < view.len() && view[id] is Some
}

/// Slot `id` holds a root.
pub open spec fn is_live_root(view: Seq<Option<Individual>>, id: int) -> bool {
    is_live(view, id) && view[id].unwrap().role is Root
}

/// Slot `id` holds a child whose parent is `parent`.
pub open spec fn is_child_of(view: Seq<Option<Individual>>, id: int, parent: int) -> bool {
    is_live(view, id) && view[id].unwrap().role == (Role::Child { parent: parent as usize })
        && 0 <= parent <= usize::MAX
}

/// What the invariants of a population ask of the individual in slot `i`:
/// it carries the id `i`, it is well formed, and if it is a child, its
/// parent is a live root of the same population.
pub open spec fn slot_consistent(view: Seq<Option<Individual>>, i: int) -> bool {
    &&& view[i].unwrap().id == i
    &&& view[i].unwrap().wf()
    &&& (view[i].unwrap().role matches Role::Child { parent } ==> is_live_root(view, parent as int))
}

/// The invariants of a population: every live individual is consistent with
/// its slot and with the rest.
pub open spec fn consistent(view: Seq<Option<Individual>>) -> bool {
    forall|i: int| #![trigger view[i]] is_live(view, i) ==> slot_consistent(view, i)
}

/// The ids in the list grow strictly from each entry to the next.
pub open spec fn ascending(ids: Seq<usize>) -> bool {
    forall|i: int, j: int| 0 <= i < j < ids.len() ==> ids[i] < ids[j]
}

/// The individual in slot `id` outlives a cull with the given marks: it is not
/// marked itself and, if it is a child, its parent is not marked either.
pub open spec fn survives(view: Seq<Option<Individual>>, marks: Seq<bool>, id: int) -> bool {
    &&& is_live(view, id)
    &&& !marks[id]
    &&& (view[id].unwrap().role matches Role::Child { parent } ==> !marks[parent as int])
}

/// The population after a cull: the slots of the survivors are untouched,
/// every other slot is empty.
pub open spec fn culled(view: Seq<Option<Individual>>, marks: Seq<bool>) -> Seq<
    Option<Individual>,
> {
    Seq::new(
        view.len(),
        |i: int|
            if survives(view, marks, i) {
                view[i]
            } else {
                None
            },
    )
}

/// The marks that single out the individual `id`.
pub open spec fn only_marked(len: nat, id: int) -> Seq<bool> {
    Seq::new(len, |i: int| i == id)
}

/// The live individuals, in the order of their ids.
pub open spec fn live_members(view: Seq<Option<Individual>>) -> Seq<Individual>
    decreases view.len(),
{
    if view.len() == 0 {
        Seq::empty()
    } else {
        match view.last() {
            Some(individual) => live_members(view.drop_last()).push(individual),
            None => live_members(view.drop_last()),
        }
    }
}

/// The live roots, in the order of their ids.
pub open spec fn live_roots(view: Seq<Option<Individual>>) -> Seq<Individual>
    decreases view.len(),
{
    if view.len() == 0 {
        Seq::empty()
    } else {
        match view.last() {
            Some(individual) => if individual.role is Root {
                live_roots(view.drop_last()).push(individual)
            } else {
                live_roots(view.drop_last())
            },
            None => live_roots(view.drop_last()),
        }
    }
}

/// The number of live individuals.
pub open spec fn live_count(view: Seq<Option<Individual>>) -> nat {
    live_members(view).len()
}

/// A cull keeps a population consistent.
pub proof fn lemma_cull_keeps_consistent(view: Seq<Option<Individual>>, marks: Seq<bool>)
    requires
        consistent(view),
        marks.len() == view.len(),
    ensures
        consistent(culled(view, marks)),
{
    let after = culled(view, marks);
    assert forall|i: int| #![trigger after[i]] is_live(after, i) implies slot_consistent(
                after,
                i,
            ) by {
        assert(survives(view, marks, i));
        assert(after[i] == view[i]);
        if let Role::Child { parent } = view[i].unwrap().role {
            let p = parent as int;
            assert(is_live_root(view, p));
            assert(view[p].unwrap().role is Root);
            assert(survives(view, marks, p));
            assert(after[p] == view[p]);
        }
    }
}

/// A cull cascades: with a marked root go all of its children.
pub proof fn lemma_cull_cascades(view: Seq<Option<Individual>>, marks: Seq<bool>, root: int)
    requires
        marks.len() == view.len(),
        0 <= root < marks.len(),
        marks[root],
    ensures
        culled(view, marks)[root] is None,
        forall|c: int| is_child_of(view, c, root) ==> (#[trigger] culled(view, marks)[c]) is None,
{
}

/// Appending a slot appends its individual, if it holds one, to the live
/// members and, if that individual is a root, to the live roots.
pub proof fn lemma_live_push(view: Seq<Option<Individual>>, slot: Option<Individual>)
    ensures
        slot is None ==> live_members(view.push(slot)) == live_members(view),
        slot is Some ==> live_members(view.push(slot)) == live_members(view).push(slot.unwrap()),
        slot is Some && slot.unwrap().role is Root ==> live_roots(view.push(slot)) == live_roots(
            view,
        ).push(slot.unwrap()),
        !(slot is Some && slot.unwrap().role is Root) ==> live_roots(view.push(slot))
            == live_roots(view),
{
    assert(view.push(slot).drop_last() == view);
}

/// The population without the individual `id` and, if `id` is a root,
/// without its children.
pub open spec fn without(view: Seq<Option<Individual>>, id: int) -> Seq<Option<Individual>> {
    Seq::new(
        view.len(),
        |i: int|
            if i == id || is_child_of(view, i, id) {
                None
            } else {
                view[i]
            },
    )
}

/// Removing one individual is the cull that marks it alone.
pub proof fn lemma_without_is_cull(view: Seq<Option<Individual>>, id: int)
    requires
        consistent(view),
        0 <= id < view.len(),
    ensures
        without(view, id) == culled(view, only_marked(view.len(), id)),
{
    let marks = only_marked(view.len(), id);
    assert forall|i: int| 0 <= i < view.len() implies without(view, id)[i] == culled(
        view,
        marks,
    )[i] by {
        if view[i] is Some {
            if let Role::Child { parent } = view[i].unwrap().role {
                assert(is_live_root(view, parent as int));
                assert(marks[parent as int] == (parent == id));
            }
        }
    }
    assert(without(view, id) =~= culled(view, marks));
}

/// Every entry of the list of live roots is a live root of the population.
pub proof fn lemma_live_roots_are_live(view: Seq<Option<Individual>>, k: int)
    requires
        0 <= k < live_roots(view).len(),
    ensures
        exists|i: int| is_live_root(view, i) && #[trigger] view[i] == Some(live_roots(view)[k]),
    decreases view.len(),
{
    if view.len() > 0 {
        let rest = view.drop_last();
        let last = view.len() - 1;
        if view.last() is Some && view.last().unwrap().role is Root && k == live_roots(rest).len() {
            assert(is_live_root(view, last) && view[last] == Some(live_roots(view)[k]));
        } else {
            lemma_live_roots_are_live(rest, k);
            let i = choose|i: int| is_live_root(rest, i) && #[trigger] rest[i] == Some(
                live_roots(rest)[k],
            );
            assert(is_live_root(view, i) && view[i] == Some(live_roots(view)[k]));
        }
    }
}

/// `after` holds, slot by slot, what `before` holds or nothing.
pub open spec fn is_remainder_of(
    after: Seq<Option<Individual>>,
    before: Seq<Option<Individual>>,
) -> bool {
    &&& after.len() == before.len()
    &&& forall|i: int|
        #![trigger after[i]]
        0 <= i < after.len() ==> after[i] == before[i] || after[i] is None
}

/// What remains of a population has no more members and no more roots than
/// the population had.
pub proof fn lemma_remainder_is_smaller(
    after: Seq<Option<Individual>>,
    before: Seq<Option<Individual>>,
)
    requires
        is_remainder_of(after, before),
    ensures
        live_count(after) <= live_count(before),
        live_roots(after).len() <= live_roots(before).len(),
    decreases before.len(),
{
    if before.len() > 0 {
        let last = before.len() - 1;
        assert(after[last] == before[last] || after[last] is None);
        assert forall|i: int|
            #![trigger after.drop_last()[i]]
            0 <= i < after.drop_last().len() implies after.drop_last()[i] == before.drop_last()[i]
            || after.drop_last()[i] is None by {
            assert(after[i] == before[i] || after[i] is None);
        }
        lemma_remainder_is_smaller(after.drop_last(), before.drop_last());
    }
}

/// A cull leaves a remainder of the population.
pub proof fn lemma_cull_is_remainder(view: Seq<Option<Individual>>, marks: Seq<bool>)
    ensures
        is_remainder_of(culled(view, marks), view),
{
}

/// The child in slot `c`, if it is one, is on the list of its parent.
spec fn is_listed(slots: Seq<Option<Individual>>, families: Seq<Vec<usize>>, c: int) -> bool {
    slots[c].unwrap().role matches Role::Child { parent } ==> families[parent as int]@.contains(
        c as usize,
    )
}

/// How the list of children of slot `r` changes in a cull: the list of a
/// survivor keeps exactly its unmarked entries, any other list is emptied.
spec fn family_kept(
    before: Seq<Option<Individual>>,
    marks: Seq<bool>,
    old_list: Seq<usize>,
    new_list: Seq<usize>,
    r: int,
) -> bool {
    &&& ascending(new_list)
    &&& forall|j: int|
        0 <= j < new_list.len() ==> survives(before, marks, r) && old_list.contains(
            #[trigger] new_list[j],
        ) && !marks[new_list[j] as int]
    &&& forall|k: int|
        0 <= k < old_list.len() && survives(before, marks, r) && !marks[old_list[k] as int]
            ==> new_list.contains(#[trigger] old_list[k])
}

/// The store of all live individuals.
pub struct Population {
    slots: Vec<Option<Individual>>,
    families: Vec<Vec<usize>>,
}

impl View for Population {
    type V = Seq<Option<Individual>>;

    /// The arena: slot `i` holds the individual with id `i`, or nothing.
    closed spec fn view(&self) -> Seq<Option<Individual>> {
        self.slots@
    }
}

/// The entries of `list` that are not marked, in the order of `list`.
fn retain_unmarked(list: &Vec<usize>, marks: &Vec<bool>) -> (kept: Vec<usize>)
    requires
        ascending(list@),
        forall|k: int| 0 <= k < list@.len() ==> list@[k] < marks@.len(),
    ensures
        ascending(kept@),
        forall|j: int|
            0 <= j < kept@.len() ==> list@.contains(#[trigger] kept@[j])
                && !marks@[kept@[j] as int],
        forall|k: int|
            0 <= k < list@.len() && !marks@[list@[k] as int] ==> kept@.contains(
                #[trigger] list@[k],
            ),
{
    let mut kept: Vec<usize> = Vec::new();
    let mut k: usize = 0;
    while k < list.len()
        invariant
            k <= list@.len(),
            ascending(list@),
            forall|t: int| 0 <= t < list@.len() ==> list@[t] < marks@.len(),
            ascending(kept@),
            forall|j: int|
                0 <= j < kept@.len() ==> !marks@[#[trigger] kept@[j] as int] && exists|t: int|
                    0 <= t < k && list@[t] == kept@[j],
            forall|t: int|
                0 <= t < k && !marks@[list@[t] as int] ==> kept@.contains(#[trigger] list@[t]),
        decreases list@.len() - k,
    {
        let child: usize = list[k];
        if !marks[child] {
            let ghost before = kept@;
            kept.push(child);
            proof {
                assert(kept@[before.len() as int] == child);
                assert forall|t: int|
                    0 <= t < k + 1 && !marks@[list@[t] as int] implies kept@.contains(
                    #[trigger] list@[t],
                ) by {
                    if t < k {
                        let j = choose|j: int| 0 <= j < before.len() && before[j] == list@[t];
                        assert(kept@[j] == list@[t]);
                    }
                }
                assert forall|j: int| 0 <= j < kept@.len() implies !marks@[
                #[trigger] kept@[j] as int] && exists|t: int|
                    0 <= t < k + 1 && list@[t] == kept@[j] by {
                    if j < before.len() {
                        assert(kept@[j] == before[j]);
                        let t = choose|t: int| 0 <= t < k && list@[t] == before[j];
                        assert(list@[t] == kept@[j]);
                    } else {
                        assert(list@[k as int] == kept@[j]);
                    }
                }
                assert forall|i: int, j: int| 0 <= i < j < kept@.len() implies kept@[i]
                    < kept@[j] by {
                    if j < before.len() {
                        assert(before[i] < before[j]);
                    } else {
                        let t = choose|t: int| 0 <= t < k && list@[t] == before[i];
                        assert(list@[t] < list@[k as int]);
                    }
                }
            }
        }
        k += 1;
    }
    proof {
        assert forall|j: int| 0 <= j < kept@.len() implies list@.contains(#[trigger] kept@[j])
            && !marks@[kept@[j] as int] by {
            let t = choose|t: int| 0 <= t < k && list@[t] == kept@[j];
            assert(list@[t] == kept@[j]);
        }
    }
    kept
}

impl Population {
    /// The list of children kept beside the arena agrees with the arena.
    pub closed spec fn index_wf(&self) -> bool {
        &&& self.families@.len() == self.slots@.len()
        &&& forall|c: int|
            #![trigger self.slots@[c]]
            is_live(self.slots@, c) ==> is_listed(self.slots@, self.families@, c)
        &&& forall|r: int, k: int|
            #![trigger self.families@[r]@[k]]
            0 <= r < self.families@.len() && 0 <= k < self.families@[r]@.len() ==> is_child_of(
                self.slots@,
                self.families@[r]@[k] as int,
                r,
            )
        &&& forall|r: int|
            #![trigger self.families@[r]]
            0 <= r < self.families@.len() ==> ascending(self.families@[r]@)
    }

    /// The population is consistent and its index of children is correct.
    pub open spec fn wf(&self) -> bool {
        &&& consistent(self@)
        &&& self.index_wf()
    }

    /// An empty population.
    pub fn new() -> (population: Population)
        ensures
            population.wf(),
            population@ == Seq::<Option<Individual>>::empty(),
    {
        Population { slots: Vec::new(), families: Vec::new() }
    }

    /// The number of ids handed out so far; the next individual gets this id.
    pub fn slot_count(&self) -> (n: usize)
        ensures
            n == self@.len(),
    {
        self.slots.len()
    }

    /// The number of live individuals.
    pub fn live_count(&self) -> (count: usize)
        ensures
            count == live_count(self@),
    {
        let mut count: usize = 0;
        let mut i: usize = 0;
        while i < self.slots.len()
            invariant
                i <= self.slots@.len(),
                count == live_count(self.slots@.take(i as int)),
                count <= i,
            decreases self.slots@.len() - i,
        {
            proof {
                assert(self.slots@.take(i + 1) == self.slots@.take(i as int).push(
                    self.slots@[i as int],
                ));
                lemma_live_push(self.slots@.take(i as int), self.slots@[i as int]);
            }
            if self.slots[i].is_some() {
                count = count + 1;
            }
            i += 1;
        }
        assert(self.slots@.take(i as int) == self.slots@);
        count
    }

    /// The individual with the given id, if it is alive.
    pub fn get(&self, id: usize) -> (found: Option<Individual>)
        ensures
            is_live(self@, id as int) ==> found == self@[id as int],
            !is_live(self@, id as int) ==> found is None,
    {
        if id < self.slots.len() {
            self.slots[id]
        } else {
            None
        }
    }

    /// The ids of the children of `id`, in growing order; empty unless `id`
    /// is a root with children.
    pub fn children_of(&self, id: usize) -> (children: Vec<usize>)
        requires
            self.wf(),
        ensures
            ascending(children@),
            forall|c: usize|
                children@.contains(c) <==> is_child_of(self@, c as int, id as int),
    {
        let mut children: Vec<usize> = Vec::new();
        if id >= self.families.len() {
            assert forall|c: usize| is_child_of(self@, c as int, id as int) implies false by {
                assert(is_live_root(self@, id as int));
            }
            return children;
        }
        let list = &self.families[id];
        let mut k: usize = 0;
        while k < list.len()
            invariant
                k <= list@.len(),
                children@ == list@.take(k as int),
            decreases list@.len() - k,
        {
            children.push(list[k]);
            assert(list@.take(k + 1) == list@.take(k as int).push(list@[k as int]));
            k += 1;
        }
        proof {
            assert(list@.take(k as int) == list@);
            assert forall|c: usize| children@.contains(c) implies is_child_of(
                self@,
                c as int,
                id as int,
            ) by {
                let j = choose|j: int| 0 <= j < children@.len() && children@[j] == c;
                assert(self.families@[id as int]@[j] == c);
            }
            assert forall|c: usize|
                is_child_of(self@, c as int, id as int) implies children@.contains(c) by {
                assert(self.slots@[c as int] is Some);
            }
        }
        children
    }

    /// Adds a root and returns its id.
    pub fn spawn_root(
        &mut self,
        position: Vec3,
        mover: Option<Mover>,
        gene: ColorGroup,
        lifetime: Option<Lifetime>,
    ) -> (id: usize)
        requires
            old(self).wf(),
            gene.in_domain(),
            mover matches Some(m) ==> m.wf(),
        ensures
            final(self).wf(),
            id == old(self)@.len(),
            final(self)@ == old(self)@.push(
                Some(Individual { id, position, mover, gene, role: Role::Root, lifetime }),
            ),
    {
        let id: usize = self.slots.len();
        let individual = Individual { id, position, mover, gene, role: Role::Root, lifetime };
        self.slots.push(Some(individual));
        self.families.push(Vec::new());
        proof {
            let before = old(self).slots@;
            let after = self.slots@;
            assert forall|i: int| #![trigger after[i]] is_live(after, i) implies slot_consistent(
                after,
                i,
            ) by {
                if i < before.len() {
                    assert(after[i] == before[i]);
                    if let Role::Child { parent } = before[i].unwrap().role {
                        assert(is_live_root(before, parent as int));
                        assert(after[parent as int] == before[parent as int]);
                    }
                }
            }
            assert forall|c: int|
                #![trigger self.slots@[c]]
                is_live(self.slots@, c) implies is_listed(self.slots@, self.families@, c) by {
                if c < before.len() {
                    assert(after[c] == before[c]);
                    if let Role::Child { parent } = before[c].unwrap().role {
                        assert(is_live_root(before, parent as int));
                        assert(self.families@[parent as int] == old(self).families@[parent as int]);
                    }
                }
            }
            assert forall|r: int, k: int|
                #![trigger self.families@[r]@[k]]
                0 <= r < self.families@.len() && 0 <= k < self.families@[r]@.len()
                    implies is_child_of(self.slots@, self.families@[r]@[k] as int, r) by {
                assert(r < before.len());
                assert(self.families@[r] == old(self).families@[r]);
                let c = old(self).families@[r]@[k] as int;
                assert(is_child_of(before, c, r));
                assert(after[c] == before[c]);
            }
            assert forall|r: int|
                #![trigger self.families@[r]]
                0 <= r < self.families@.len() implies ascending(self.families@[r]@) by {
                if r < before.len() {
                    assert(self.families@[r] == old(self).families@[r]);
                }
            }
        }
        id
    }

    /// Adds a child to the root `parent` and returns its id. The child has
    /// neither a velocity nor a lifetime of its own.
    pub fn spawn_child(&mut self, parent: usize, position: Vec3, gene: ColorGroup) -> (id: usize)
        requires
            old(self).wf(),
            is_live_root(old(self)@, parent as int),
            gene.in_domain(),
        ensures
            final(self).wf(),
            id == old(self)@.len(),
            final(self)@ == old(self)@.push(
                Some(
                    Individual {
                        id,
                        position,
                        mover: None,
                        gene,
                        role: Role::Child { parent },
                        lifetime: None,
                    },
                ),
            ),
    {
        let id: usize = self.slots.len();
        let individual = Individual {
            id,
            position,
            mover: None,
            gene,
            role: Role::Child { parent },
            lifetime: None,
        };
        self.slots.push(Some(individual));
        self.families.push(Vec::new());
        self.families[parent].push(id);
        proof {
            let before = old(self).slots@;
            let after = self.slots@;
            let old_list = old(self).families@[parent as int]@;
            assert(self.families@[parent as int]@ == old_list.push(id));
            assert forall|r: int| 0 <= r < before.len() && r != parent implies self.families@[r]
                == old(self).families@[r] by {}
            assert forall|i: int| #![trigger after[i]] is_live(after, i) implies slot_consistent(
                after,
                i,
            ) by {
                if i < before.len() {
                    assert(after[i] == before[i]);
                    if let Role::Child { parent } = before[i].unwrap().role {
                        assert(is_live_root(before, parent as int));
                        assert(after[parent as int] == before[parent as int]);
                    }
                } else {
                    assert(after[parent as int] == before[parent as int]);
                }
            }
            assert forall|c: int|
                #![trigger self.slots@[c]]
                is_live(self.slots@, c) implies is_listed(self.slots@, self.families@, c) by {
                if c < before.len() {
                    assert(after[c] == before[c]);
                    if let Role::Child { parent: p } = before[c].unwrap().role {
                        assert(is_live_root(before, p as int));
                        let j = choose|j: int|
                            0 <= j < old(self).families@[p as int]@.len() && old(
                                self,
                            ).families@[p as int]@[j] == c as usize;
                        if p == parent {
                            assert(self.families@[p as int]@[j] == c as usize);
                        } else {
                            assert(self.families@[p as int]@[j] == c as usize);
                        }
                    }
                } else {
                    assert(self.families@[parent as int]@[old_list.len() as int] == id);
                }
            }
            assert forall|r: int, k: int|
                #![trigger self.families@[r]@[k]]
                0 <= r < self.families@.len() && 0 <= k < self.families@[r]@.len()
                    implies is_child_of(self.slots@, self.families@[r]@[k] as int, r) by {
                assert(r < before.len());
                if r == parent && k == old_list.len() {
                    assert(self.families@[r]@[k] == id);
                } else {
                    assert(self.families@[r]@[k] == old(self).families@[r]@[k]);
                    let c = old(self).families@[r]@[k] as int;
                    assert(is_child_of(before, c, r));
                    assert(after[c] == before[c]);
                }
            }
            assert forall|r: int|
                #![trigger self.families@[r]]
                0 <= r < self.families@.len() implies ascending(self.families@[r]@) by {
                if r == parent {
                    assert(ascending(old(self).families@[r]@));
                    assert forall|i: int, j: int|
                        0 <= i < j < self.families@[r]@.len() implies self.families@[r]@[i]
                        < self.families@[r]@[j] by {
                        assert(is_child_of(before, old(self).families@[r]@[i] as int, r));
                        if j < old_list.len() {
                            assert(old(self).families@[r]@[i] < old(self).families@[r]@[j]);
                        }
                    }
                } else if r < before.len() {
                    assert(self.families@[r] == old(self).families@[r]);
                }
            }
        }
        id
    }

    /// Overwrites the position, velocity, gene and lifetime of a live
    /// individual. Its id and its role stay as they are.
    pub fn update(&mut self, individual: Individual)
        requires
            old(self).wf(),
            is_live(old(self)@, individual.id as int),
            individual.wf(),
            individual.role == old(self)@[individual.id as int].unwrap().role,
        ensures
            final(self).wf(),
            final(self)@ == old(self)@.update(individual.id as int, Some(individual)),
    {
        let id: usize = individual.id;
        self.slots[id] = Some(individual);
        proof {
            let before = old(self).slots@;
            let after = self.slots@;
            assert(after == before.update(id as int, Some(individual)));
            assert forall|i: int| #![trigger after[i]] is_live(after, i) implies slot_consistent(
                after,
                i,
            ) by {
                assert(is_live(before, i));
                assert(before[i].unwrap().role == after[i].unwrap().role);
                if let Role::Child { parent } = before[i].unwrap().role {
                    assert(is_live_root(before, parent as int));
                    let p = parent as int;
                    assert(before[p].unwrap().role == after[p].unwrap().role);
                }
            }
            assert forall|c: int|
                #![trigger self.slots@[c]]
                is_live(self.slots@, c) implies is_listed(self.slots@, self.families@, c) by {
                assert(is_live(before, c));
                assert(before[c].unwrap().role == after[c].unwrap().role);
            }
            assert forall|r: int, k: int|
                #![trigger self.families@[r]@[k]]
                0 <= r < self.families@.len() && 0 <= k < self.families@[r]@.len()
                    implies is_child_of(self.slots@, self.families@[r]@[k] as int, r) by {
                let c = self.families@[r]@[k] as int;
                assert(is_child_of(before, c, r));
                assert(before[c].unwrap().role == after[c].unwrap().role);
            }
        }
    }

    /// Removes every marked individual, and with every marked root all of
    /// its children. Returns how many individuals were removed.
    pub fn cull(&mut self, marks: &Vec<bool>) -> (removed: usize)
        requires
            old(self).wf(),
            marks@.len() == old(self)@.len(),
        ensures
            final(self).wf(),
            final(self)@ == culled(old(self)@, marks@),
            removed == live_count(old(self)@) - live_count(final(self)@),
    {
        let n: usize = self.slots.len();
        let ghost before = self.slots@;
        let ghost index = self.families@;
        let ghost target = culled(before, marks@);
        let mut slots: Vec<Option<Individual>> = Vec::new();
        let mut families: Vec<Vec<usize>> = Vec::new();
        let mut removed: usize = 0;
        let mut i: usize = 0;
        while i < n
            invariant
                i <= n,
                n == before.len(),
                marks@.len() == n,
                self.wf(),
                self.slots@ == before,
                self.families@ == index,
                target == culled(before, marks@),
                slots@ == target.take(i as int),
                families@.len() == i,
                removed + live_count(slots@) == live_count(before.take(i as int)),
                removed <= i,
                forall|r: int|
                    #![trigger families@[r]]
                    0 <= r < i ==> family_kept(before, marks@, index[r]@, families@[r]@, r),
            decreases n - i,
        {
            let slot: Option<Individual> = self.slots[i];
            let keep: bool = match slot {
                Some(individual) => !marks[i] && match individual.role {
                    Role::Child { parent } => {
                        assert(is_live_root(before, parent as int));
                        !marks[parent]
                    },
                    Role::Root => true,
                },
                None => false,
            };
            assert(keep == survives(before, marks@, i as int));
            let ghost previous = slots@;
            let ghost previous_families = families@;
            proof {
                assert(before.take(i + 1) == before.take(i as int).push(before[i as int]));
                lemma_live_push(before.take(i as int), before[i as int]);
                lemma_live_push(previous, target[i as int]);
                assert(target.take(i + 1) == target.take(i as int).push(target[i as int]));
            }
            if keep {
                assert forall|k: int| 0 <= k < index[i as int]@.len() implies index[i as int]@[k]
                    < marks@.len() by {
                    assert(is_child_of(before, index[i as int]@[k] as int, i as int));
                }
                let kept: Vec<usize> = retain_unmarked(&self.families[i], marks);
                let ghost kept_view = kept@;
                slots.push(slot);
                families.push(kept);
                assert(families@[i as int]@ == kept_view);
                assert(family_kept(before, marks@, index[i as int]@, kept_view, i as int));
            } else {
                if slot.is_some() {
                    removed = removed + 1;
                }
                slots.push(None);
                families.push(Vec::new());
                assert(families@[i as int]@.len() == 0);
                assert(family_kept(
                    before,
                    marks@,
                    index[i as int]@,
                    families@[i as int]@,
                    i as int,
                ));
            }
            proof {
                assert forall|r: int| #![trigger families@[r]] 0 <= r < i + 1 implies family_kept(
                    before,
                    marks@,
                    index[r]@,
                    families@[r]@,
                    r,
                ) by {
                    if r < i {
                        assert(families@[r] == previous_families[r]);
                        assert(family_kept(before, marks@, index[r]@, previous_families[r]@, r));
                    }
                }
            }
            i += 1;
        }
        proof {
            assert(target.take(n as int) == target);
            assert(before.take(n as int) == before);
            lemma_cull_keeps_consistent(before, marks@);
        }
        self.slots = slots;
        self.families = families;
        proof {
            let after = self.slots@;
            assert forall|c: int|
                #![trigger self.slots@[c]]
                is_live(self.slots@, c) implies is_listed(self.slots@, self.families@, c) by {
                assert(survives(before, marks@, c));
                assert(after[c] == before[c]);
                if let Role::Child { parent } = before[c].unwrap().role {
                    let p = parent as int;
                    assert(is_live_root(before, p));
                    assert(before[p].unwrap().role is Root);
                    assert(survives(before, marks@, p));
                    let k = choose|k: int| 0 <= k < index[p]@.len() && index[p]@[k] == c as usize;
                    assert(family_kept(before, marks@, index[p]@, self.families@[p]@, p));
                    assert(self.families@[p]@.contains(index[p]@[k]));
                }
            }
            assert forall|r: int, k: int|
                #![trigger self.families@[r]@[k]]
                0 <= r < self.families@.len() && 0 <= k < self.families@[r]@.len()
                    implies is_child_of(self.slots@, self.families@[r]@[k] as int, r) by {
                let x = self.families@[r]@[k];
                assert(family_kept(before, marks@, index[r]@, self.families@[r]@, r));
                assert(index[r]@.contains(x));
                let j = choose|j: int| 0 <= j < index[r]@.len() && index[r]@[j] == x;
                assert(is_child_of(before, index[r]@[j] as int, r));
                assert(survives(before, marks@, x as int));
                assert(after[x as int] == before[x as int]);
            }
        }
        removed
    }

    /// Removes the live individual `id`; if it is a root, its children go
    /// with it. Returns how many individuals were removed.
    pub fn remove(&mut self, id: usize) -> (removed: usize)
        requires
            old(self).wf(),
            is_live(old(self)@, id as int),
        ensures
            final(self).wf(),
            final(self)@ == without(old(self)@, id as int),
            removed == live_count(old(self)@) - live_count(final(self)@),
    {
        let n: usize = self.slots.len();
        let mut marks: Vec<bool> = Vec::new();
        let mut i: usize = 0;
        while i < n
            invariant
                i <= n,
                marks@ == only_marked(n as nat, id as int).take(i as int),
            decreases n - i,
        {
            marks.push(i == id);
            assert(only_marked(n as nat, id as int).take(i + 1) == only_marked(
                n as nat,
                id as int,
            ).take(i as int).push(i == id));
            i += 1;
        }
        proof {
            assert(only_marked(n as nat, id as int).take(n as int) == only_marked(
                n as nat,
                id as int,
            ));
            lemma_without_is_cull(self@, id as int);
        }
        self.cull(&marks)
    }

    /// The live individuals, in the order of their ids.
    pub fn snapshot(&self) -> (members: Vec<Individual>)
        ensures
            members@ == live_members(self@),
    {
        let mut members: Vec<Individual> = Vec::new();
        let mut i: usize = 0;
        while i < self.slots.len()
            invariant
                i <= self.slots@.len(),
                members@ == live_members(self.slots@.take(i as int)),
            decreases self.slots@.len() - i,
        {
            proof {
                assert(self.slots@.take(i + 1) == self.slots@.take(i as int).push(
                    self.slots@[i as int],
                ));
                lemma_live_push(self.slots@.take(i as int), self.slots@[i as int]);
            }
            match self.slots[i] {
                Some(individual) => {
                    members.push(individual);
                },
                None => {},
            }
            i += 1;
        }
        assert(self.slots@.take(i as int) == self.slots@);
        members
    }

    /// The live roots, in the order of their ids.
    pub fn determine_parents(&self) -> (roots: Vec<Individual>)
        ensures
            roots@ == live_roots(self@),
    {
        let mut roots: Vec<Individual> = Vec::new();
        let mut i: usize = 0;
        while i < self.slots.len()
            invariant
                i <= self.slots@.len(),
                roots@ == live_roots(self.slots@.take(i as int)),
            decreases self.slots@.len() - i,
        {
            proof {
                assert(self.slots@.take(i + 1) == self.slots@.take(i as int).push(
                    self.slots@[i as int],
                ));
                lemma_live_push(self.slots@.take(i as int), self.slots@[i as int]);
            }
            match self.slots[i] {
                Some(individual) => {
                    match individual.role {
                        Role::Root => {
                            roots.push(individual);
                        },
                        Role::Child { .. } => {},
                    }
                },
                None => {},
            }
            i += 1;
        }
        assert(self.slots@.take(i as int) == self.slots@);
        roots
    }
}

} // verus!
