//! The survival rules applied once per generation.
//!
//! Every decision is taken on the population as it stands before the first
//! removal; the removals are applied afterwards, all at once.

use crate::gene::{fitness, gene_fitness, gene_is_target, has_target_color};
use crate::population::{
    consistent, culled, is_child_of, is_live, is_live_root, live_count, survives, Individual,
    Population, Role,
};
use vstd::prelude::*;

verus! {

/// Fitness below which a child that does not carry the target gene is
/// removed (`0.9`).
pub const CHILD_SURVIVAL_THRESHOLD: u32 = 900_000;

/// Fitness below which a root that neither carries the target gene nor owns
/// a child that does is removed with its whole family (`0.2`).
pub const FAMILY_SURVIVAL_THRESHOLD: u32 = 200_000;

/// The two survival thresholds, in millionths.
#[derive(Clone, Copy, Debug, PartialEq, Eq, Structural)]
pub struct SelectionPolicy {
    pub child_threshold: u32,
    pub family_threshold: u32,
}

impl Default for SelectionPolicy {
    fn default() -> (policy: SelectionPolicy)
        ensures
            policy.child_threshold == CHILD_SURVIVAL_THRESHOLD,
            policy.family_threshold == FAMILY_SURVIVAL_THRESHOLD,
    {
        SelectionPolicy {
            child_threshold: CHILD_SURVIVAL_THRESHOLD,
            family_threshold: FAMILY_SURVIVAL_THRESHOLD,
        }
    }
}

/// The child rule: a child goes when it does not carry the target gene and
/// its fitness is below the child threshold.
pub open spec fn child_fails(policy: SelectionPolicy, child: Individual) -> bool {
    !gene_is_target(child.gene) && gene_fitness(child.gene) < policy.child_threshold
}

/// Some child of `root` carries the target gene.
pub open spec fn has_target_child(view: Seq<Option<Individual>>, root: int) -> bool {
    exists|c: int| #[trigger] is_child_of(view, c, root) && gene_is_target(view[c].unwrap().gene)
}

/// The family rule: a root goes when it does not carry the target gene, none
/// of its children does, and its own fitness is below the family threshold.
pub open spec fn family_fails(
    policy: SelectionPolicy,
    view: Seq<Option<Individual>>,
    root: int,
) -> bool {
    &&& !gene_is_target(view[root].unwrap().gene)
    &&& !has_target_child(view, root)
    &&& gene_fitness(view[root].unwrap().gene) < policy.family_threshold
}

/// The individual in slot `id` is marked for removal by the rule of its role.
pub open spec fn is_marked(
    policy: SelectionPolicy,
    view: Seq<Option<Individual>>,
    id: int,
) -> bool {
    is_live(view, id) && match view[id].unwrap().role {
        Role::Child { .. } => child_fails(policy, view[id].unwrap()),
        Role::Root => family_fails(policy, view, id),
    }
}

/// The marks of a whole population.
pub open spec fn selection_marks(policy: SelectionPolicy, view: Seq<Option<Individual>>) -> Seq<
    bool,
> {
    Seq::new(view.len(), |i: int| is_marked(policy, view, i))
}

/// The population after selection: every marked individual is gone, and so
/// is every child of a marked root.
pub open spec fn selected(policy: SelectionPolicy, view: Seq<Option<Individual>>) -> Seq<
    Option<Individual>,
> {
    culled(view, selection_marks(policy, view))
}

/// A child that does not carry the target gene and whose fitness is below
/// the child threshold is removed, whatever its parent is or does.
pub proof fn lemma_failing_child_is_removed(
    policy: SelectionPolicy,
    view: Seq<Option<Individual>>,
    child: int,
)
    requires
        is_live(view, child),
        view[child].unwrap().role is Child,
        !gene_is_target(view[child].unwrap().gene),
        gene_fitness(view[child].unwrap().gene) < policy.child_threshold,
    ensures
        selected(policy, view)[child] is None,
{
    assert(is_marked(policy, view, child));
}

/// A root that does not carry the target gene, owns no child that does, and
/// whose fitness is below the family threshold is removed together with all
/// of its children.
pub proof fn lemma_failing_family_is_removed(
    policy: SelectionPolicy,
    view: Seq<Option<Individual>>,
    root: int,
)
    requires
        consistent(view),
        is_live_root(view, root),
        !gene_is_target(view[root].unwrap().gene),
        !has_target_child(view, root),
        gene_fitness(view[root].unwrap().gene) < policy.family_threshold,
    ensures
        selected(policy, view)[root] is None,
        forall|c: int|
            is_child_of(view, c, root) ==> (#[trigger] selected(policy, view)[c]) is None,
{
    assert(is_marked(policy, view, root));
}

/// A root survives selection when it carries the target gene, when one of
/// its children does, or when its fitness reaches the family threshold: no
/// other rule ever removes a root.
pub proof fn lemma_root_survives(policy: SelectionPolicy, view: Seq<Option<Individual>>, root: int)
    requires
        is_live_root(view, root),
        gene_is_target(view[root].unwrap().gene) || has_target_child(view, root) || gene_fitness(
            view[root].unwrap().gene,
        ) >= policy.family_threshold,
    ensures
        selected(policy, view)[root] == view[root],
{
    assert(!is_marked(policy, view, root));
}

/// Selection leaves nothing for a second selection to remove.
pub proof fn lemma_selection_is_idempotent(policy: SelectionPolicy, view: Seq<Option<Individual>>)
    requires
        consistent(view),
    ensures
        selected(policy, selected(policy, view)) == selected(policy, view),
{
    let once = selected(policy, view);
    let marks = selection_marks(policy, view);
    let again = selection_marks(policy, once);
    assert forall|r: int| is_live_root(once, r) implies !again[r] by {
        assert(survives(view, marks, r));
        assert(once[r] == view[r]);
        assert(!is_marked(policy, view, r));
        if has_target_child(view, r) {
            let c = choose|c: int| #[trigger]
                is_child_of(view, c, r) && gene_is_target(view[c].unwrap().gene);
            assert(!is_marked(policy, view, c));
            assert(survives(view, marks, c));
            assert(once[c] == view[c]);
            assert(is_child_of(once, c, r));
        }
    }
    assert forall|i: int| 0 <= i < once.len() implies selected(policy, once)[i] == once[i] by {
        if is_live(once, i) {
            assert(survives(view, marks, i));
            assert(once[i] == view[i]);
            assert(!is_marked(policy, view, i));
            if let Role::Child { parent } = view[i].unwrap().role {
                let q = parent as int;
                assert(is_live_root(view, q));
                assert(survives(view, marks, q));
                assert(once[q] == view[q]);
                assert(is_live_root(once, q));
            } else {
                assert(is_live_root(once, i));
            }
        }
    }
    assert(selected(policy, once) =~= once);
}

/// Whether any child of the live root `root` carries the target gene.
fn any_target_child(population: &Population, root: usize) -> (found: bool)
    requires
        population.wf(),
        is_live_root(population@, root as int),
    ensures
        found == has_target_child(population@, root as int),
{
    let children: Vec<usize> = population.children_of(root);
    let mut k: usize = 0;
    while k < children.len()
        invariant
            k <= children@.len(),
            population.wf(),
            forall|c: usize|
                children@.contains(c) <==> is_child_of(population@, c as int, root as int),
            forall|j: int|
                0 <= j < k ==> !gene_is_target(
                    population@[#[trigger] children@[j] as int].unwrap().gene,
                ),
        decreases children@.len() - k,
    {
        let id: usize = children[k];
        assert(children@.contains(id));
        match population.get(id) {
            Some(child) => {
                assert(population@[id as int] == Some(child));
                if has_target_color(child.gene) {
                    assert(is_child_of(population@, id as int, root as int));
                    return true;
                }
            },
            None => {},
        }
        k += 1;
    }
    proof {
        if has_target_child(population@, root as int) {
            let c = choose|c: int| #[trigger]
                is_child_of(population@, c, root as int) && gene_is_target(
                    population@[c].unwrap().gene,
                );
            assert(children@.contains(c as usize));
            let j = choose|j: int| 0 <= j < children@.len() && children@[j] == c as usize;
            assert(!gene_is_target(population@[children@[j] as int].unwrap().gene));
        }
    }
    false
}

/// Decides for every slot, on the population as it is, whether the
/// individual in it is marked for removal.
pub fn mark_for_removal(population: &Population, policy: &SelectionPolicy) -> (marks: Vec<bool>)
    requires
        population.wf(),
    ensures
        marks@ == selection_marks(*policy, population@),
{
    let n: usize = population.slot_count();
    let ghost target = selection_marks(*policy, population@);
    let mut marks: Vec<bool> = Vec::new();
    let mut i: usize = 0;
    while i < n
        invariant
            i <= n,
            n == population@.len(),
            population.wf(),
            target == selection_marks(*policy, population@),
            marks@ == target.take(i as int),
        decreases n - i,
    {
        let marked: bool = match population.get(i) {
            Some(individual) => {
                assert(population@[i as int] == Some(individual));
                assert(individual.wf());
                if has_target_color(individual.gene) {
                    false
                } else {
                    let score: u32 = fitness(individual.gene);
                    match individual.role {
                        Role::Child { .. } => score < policy.child_threshold,
                        Role::Root => score < policy.family_threshold && !any_target_child(
                            population,
                            i,
                        ),
                    }
                }
            },
            None => false,
        };
        assert(marked == is_marked(*policy, population@, i as int));
        marks.push(marked);
        assert(target.take(i + 1) == target.take(i as int).push(target[i as int]));
        i += 1;
    }
    assert(target.take(n as int) == target);
    marks
}

/// Applies the survival rules to the whole population and removes what
/// fails them. Returns how many individuals were removed.
pub fn evaluate_fitness(population: &mut Population, policy: &SelectionPolicy) -> (removed: usize)
    requires
        old(population).wf(),
    ensures
        final(population).wf(),
        final(population)@ == selected(*policy, old(population)@),
        removed == live_count(old(population)@) - live_count(final(population)@),
{
    let marks: Vec<bool> = mark_for_removal(population, policy);
    population.cull(&marks)
}

} // verus!
