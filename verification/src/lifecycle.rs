//! The lifecycle of the population: movement and expiry on every tick, and
//! the generation cycle of selection, reproduction and spawning.

use crate::fixed::{Vec3, SCALE};
use crate::gene::{ColorGroup, GENE_COUNT};
use crate::mover::{moved_position, moved_velocity, Lifetime, Mover};
use crate::population::{
    consistent, culled, is_child_of, is_live, is_live_root, lemma_cull_is_remainder,
    lemma_live_roots_are_live, lemma_remainder_is_smaller, live_count, live_members, live_roots,
    slot_consistent, Individual, Population, Role,
};
use crate::random::random_in_range;
use crate::reproduction::{
    draw_offspring_batch, lemma_offspring_bounds, offspring_list, perform_crossover, Offspring,
    OffspringDraw, MUTATION_RATE,
};
use crate::selection::{
    evaluate_fitness, selected, selection_marks, SelectionPolicy, CHILD_SURVIVAL_THRESHOLD,
    FAMILY_SURVIVAL_THRESHOLD,
};
use vstd::prelude::*;

verus! {

/// The largest coordinate, in either direction, that may be handed to the
/// simulation (`2⁶²` millionths).
pub const WORLD_LIMIT: i64 = 4_611_686_018_427_387_904;

/// The default distance of the reflecting walls from the origin (`9.0`).
pub const WORLD_BOUND: i64 = 9_000_000;

/// The default lifetime of an offspring (`3.0` time units).
pub const OFFSPRING_LIFETIME: u64 = 3_000_000;

/// The default number of families in the first generation.
pub const POPULATION_SIZE: usize = 350;

/// The default number of children of each root of the first generation.
pub const CHILDREN_PER_ROOT: usize = 5;

/// The generation counter. It starts at one and grows by one with every
/// completed generation cycle.
#[derive(Clone, Copy, Debug, PartialEq, Eq, Structural)]
pub struct GenerationNumber {
    pub current_gen: u32,
}

impl Default for GenerationNumber {
    fn default() -> (generation: GenerationNumber)
        ensures
            generation.current_gen == 1,
    {
        GenerationNumber { current_gen: 1 }
    }
}

/// The knobs of a simulation, all in millionths.
#[derive(Clone, Copy, Debug, PartialEq, Eq, Structural)]
pub struct Settings {
    /// Distance of the reflecting walls from the origin.
    pub bound: i64,
    /// Reach of the position jitter and base chance of a forced target gene.
    pub mutation_rate: u32,
    /// How long an offspring lives.
    pub offspring_lifetime: u64,
    /// The survival thresholds.
    pub policy: SelectionPolicy,
}

impl Settings {
    /// The walls lie inside the world and the mutation rate is at most one.
    pub open spec fn wf(self) -> bool {
        &&& 0 <= self.bound <= WORLD_LIMIT
        &&& self.mutation_rate <= SCALE
    }

    /// Tells at run time whether the settings are valid.
    pub fn is_valid(&self) -> (b: bool)
        ensures
            b == self.wf(),
    {
        0 <= self.bound && self.bound <= WORLD_LIMIT && self.mutation_rate as i64 <= SCALE
    }
}

impl Default for Settings {
    fn default() -> (settings: Settings)
        ensures
            settings.wf(),
            settings.bound == WORLD_BOUND,
            settings.mutation_rate == MUTATION_RATE,
            settings.offspring_lifetime == OFFSPRING_LIFETIME,
            settings.policy.child_threshold == CHILD_SURVIVAL_THRESHOLD,
            settings.policy.family_threshold == FAMILY_SURVIVAL_THRESHOLD,
    {
        Settings {
            bound: WORLD_BOUND,
            mutation_rate: MUTATION_RATE,
            offspring_lifetime: OFFSPRING_LIFETIME,
            policy: SelectionPolicy::default(),
        }
    }
}

/// Where the first generation is placed and how fast it may move.
#[derive(Clone, Copy, Debug, PartialEq, Eq, Structural)]
pub struct SeedBounds {
    /// The corner of the seeding box with the smallest coordinates.
    pub low: Vec3,
    /// The corner of the seeding box with the largest coordinates.
    pub high: Vec3,
    /// The largest speed along one axis.
    pub max_speed: i64,
}

impl SeedBounds {
    /// The box is not empty and lies inside the world, and the speed is not
    /// negative.
    pub open spec fn wf(self) -> bool {
        &&& self.low.x <= self.high.x
        &&& self.low.y <= self.high.y
        &&& self.low.z <= self.high.z
        &&& self.low.within(WORLD_LIMIT as int)
        &&& self.high.within(WORLD_LIMIT as int)
        &&& 0 <= self.max_speed
    }

    /// Tells at run time whether the bounds are valid.
    pub fn is_valid(&self) -> (b: bool)
        ensures
            b == self.wf(),
    {
        self.low.x <= self.high.x && self.low.y <= self.high.y && self.low.z <= self.high.z
            && self.low.is_within(WORLD_LIMIT) && self.high.is_within(WORLD_LIMIT) && 0
            <= self.max_speed
    }

    /// `position` lies in the box.
    pub open spec fn holds(self, position: Vec3) -> bool {
        &&& self.low.x <= position.x <= self.high.x
        &&& self.low.y <= position.y <= self.high.y
        &&& self.low.z <= position.z <= self.high.z
    }
}

impl Default for SeedBounds {
    fn default() -> (bounds: SeedBounds)
        ensures
            bounds.wf(),
            bounds.low == (Vec3 { x: -3_000_000i64, y: -5_000_000i64, z: -3_000_000i64 }),
            bounds.high == (Vec3 { x: 7_000_000, y: 7_000_000, z: 7_000_000 }),
            bounds.max_speed == 100_000,
    {
        SeedBounds {
            low: Vec3 { x: -3_000_000, y: -5_000_000, z: -3_000_000 },
            high: Vec3 { x: 7_000_000, y: 7_000_000, z: 7_000_000 },
            max_speed: 100_000,
        }
    }
}

/// What is drawn for one family of the first generation: the root's
/// position, velocity and gene, and one gene per child.
#[derive(Clone, Debug, PartialEq, Eq)]
pub struct FamilySeed {
    pub position: Vec3,
    pub velocity: Vec3,
    pub gene: ColorGroup,
    pub child_genes: Vec<ColorGroup>,
}

impl FamilySeed {
    /// The family can be stored: its root lies inside the world, its
    /// velocity can be negated, its genes are declared colour groups, and
    /// the offset of its last child lies inside the world.
    pub open spec fn wf(self) -> bool {
        &&& self.position.within(WORLD_LIMIT as int)
        &&& self.velocity.within(i64::MAX as int)
        &&& self.gene.in_domain()
        &&& self.child_genes@.len() * SCALE <= WORLD_LIMIT
        &&& forall|k: int|
            0 <= k < self.child_genes@.len() ==> (#[trigger] self.child_genes@[k]).in_domain()
    }

    /// Tells at run time whether the family can be stored.
    pub fn is_valid(&self) -> (b: bool)
        ensures
            b == self.wf(),
    {
        if !(self.position.is_within(WORLD_LIMIT) && self.velocity.is_within(i64::MAX)
            && self.gene.is_declared()) {
            return false;
        }
        if self.child_genes.len() as u128 * 1_000_000 > WORLD_LIMIT as u128 {
            return false;
        }
        let mut k: usize = 0;
        while k < self.child_genes.len()
            invariant
                k <= self.child_genes@.len(),
                forall|j: int| 0 <= j < k ==> (#[trigger] self.child_genes@[j]).in_domain(),
            decreases self.child_genes@.len() - k,
        {
            if !self.child_genes[k].is_declared() {
                return false;
            }
            k += 1;
        }
        true
    }

    /// The family has `children` children and respects the seeding bounds.
    pub open spec fn drawn_within(self, bounds: SeedBounds, children: int) -> bool {
        &&& bounds.holds(self.position)
        &&& self.velocity.within(bounds.max_speed as int)
        &&& self.gene.in_domain()
        &&& self.child_genes@.len() == children
        &&& forall|k: int|
            0 <= k < self.child_genes@.len() ==> (#[trigger] self.child_genes@[k]).in_domain()
    }
}

/// What one generation cycle did.
#[derive(Clone, Copy, Debug, PartialEq, Eq, Structural)]
pub struct GenerationReport {
    pub removed_count: usize,
    pub spawned_count: usize,
    pub new_generation: u32,
}

/// The state of a simulation as contracts see it.
pub struct SimulationView {
    /// The arena of the population: slot `i` holds the individual with id
    /// `i`, or nothing.
    pub members: Seq<Option<Individual>>,
    pub generation: u32,
    pub settings: Settings,
    pub running: bool,
}

/// How far a coordinate can be from the origin in the given generation:
/// the world limit, plus the largest jitter once per generation so far.
pub open spec fn coordinate_limit(generation: int) -> int {
    WORLD_LIMIT + generation * SCALE
}

/// Every live individual lies within `limit` of the origin on every axis.
pub open spec fn within_limit(view: Seq<Option<Individual>>, limit: int) -> bool {
    forall|i: int| #![trigger view[i]] is_live(view, i) ==> view[i].unwrap().position.within(limit)
}

/// An individual after `delta` of movement between walls at `bound`; one
/// without a mover stays as it is.
pub open spec fn moved_individual(individual: Individual, delta: int, bound: int) -> Individual {
    match individual.mover {
        Some(mover) => Individual {
            position: moved_position(individual.position, mover.velocity, delta, bound),
            mover: Some(
                Mover {
                    velocity: moved_velocity(individual.position, mover.velocity, delta, bound),
                },
            ),
            ..individual
        },
        None => individual,
    }
}

/// The population after every individual has moved.
pub open spec fn moved(view: Seq<Option<Individual>>, delta: int, bound: int) -> Seq<
    Option<Individual>,
> {
    Seq::new(
        view.len(),
        |i: int|
            match view[i] {
                Some(individual) => Some(moved_individual(individual, delta, bound)),
                None => None,
            },
    )
}

/// An individual whose countdown, if it has one, has advanced by `delta`.
pub open spec fn aged_individual(individual: Individual, delta: int) -> Individual {
    match individual.lifetime {
        Some(lifetime) => Individual {
            lifetime: Some(
                Lifetime {
                    remaining: if lifetime.expires_within(delta) {
                        0
                    } else {
                        (lifetime.remaining - delta) as u64
                    },
                },
            ),
            ..individual
        },
        None => individual,
    }
}

/// The population after every countdown has advanced by `delta`.
pub open spec fn aged(view: Seq<Option<Individual>>, delta: int) -> Seq<Option<Individual>> {
    Seq::new(
        view.len(),
        |i: int|
            match view[i] {
                Some(individual) => Some(aged_individual(individual, delta)),
                None => None,
            },
    )
}

/// The individual in slot `id` has a countdown that runs out within `delta`.
pub open spec fn has_expired(view: Seq<Option<Individual>>, id: int, delta: int) -> bool {
    is_live(view, id) && (view[id].unwrap().lifetime matches Some(lifetime)
        && lifetime.expires_within(delta))
}

/// The marks of all individuals whose countdown runs out within `delta`.
pub open spec fn expiry_marks(view: Seq<Option<Individual>>, delta: int) -> Seq<bool> {
    Seq::new(view.len(), |i: int| has_expired(view, i, delta))
}

/// The population after `delta` of ageing: every individual whose countdown
/// ran out is gone, with its children if it was a root, and the countdowns
/// of the others have advanced.
pub open spec fn despawned(view: Seq<Option<Individual>>, delta: int) -> Seq<Option<Individual>> {
    culled(aged(view, delta), expiry_marks(view, delta))
}

/// The population after one tick: movement first, expiry second.
pub open spec fn ticked(view: Seq<Option<Individual>>, delta: int, bound: int) -> Seq<
    Option<Individual>,
> {
    despawned(moved(view, delta, bound), delta)
}

/// The individual that an offspring becomes: a root at rest with a
/// countdown and no children.
pub open spec fn offspring_member(cube: Offspring, id: usize, lifetime: u64) -> Individual {
    Individual {
        id,
        position: cube.position,
        mover: Some(Mover { velocity: Vec3 { x: 0, y: 0, z: 0 } }),
        gene: cube.gene,
        role: Role::Root,
        lifetime: Some(Lifetime { remaining: lifetime }),
    }
}

/// The population with one new root per offspring, in the order given.
pub open spec fn with_offspring(
    view: Seq<Option<Individual>>,
    cubes: Seq<Offspring>,
    lifetime: u64,
) -> Seq<Option<Individual>> {
    view + Seq::new(
        cubes.len(),
        |k: int| Some(offspring_member(cubes[k], (view.len() + k) as usize, lifetime)),
    )
}

/// An individual whose countdown runs out within a tick is gone after the
/// tick, and so are its children: neither its gene nor its fitness is asked.
pub proof fn lemma_expiry_is_unconditional(view: Seq<Option<Individual>>, id: int, delta: int)
    requires
        has_expired(view, id, delta),
    ensures
        despawned(view, delta)[id] is None,
        forall|c: int|
            is_child_of(view, c, id) ==> (#[trigger] despawned(view, delta)[c])
                is None,
{
    let marks = expiry_marks(view, delta);
    assert(marks[id]);
    assert forall|c: int| is_child_of(view, c, id) implies (
    #[trigger] despawned(view, delta)[c]) is None by {
        assert(aged(view, delta)[c].unwrap().role == view[c].unwrap().role);
    }
}

/// Movement keeps a population consistent and puts every mover between
/// the walls.
pub proof fn lemma_moved_consistent(view: Seq<Option<Individual>>, delta: int, bound: int)
    requires
        consistent(view),
        0 <= bound <= i64::MAX,
    ensures
        consistent(moved(view, delta, bound)),
        forall|i: int|
            #![trigger moved(view, delta, bound)[i]]
            is_live(view, i) && view[i].unwrap().mover is Some ==> moved(
                view,
                delta,
                bound,
            )[i].unwrap().position.within(bound),
{
    let after = moved(view, delta, bound);
    assert forall|i: int| #![trigger after[i]] is_live(after, i) implies slot_consistent(
        after,
        i,
    ) by {
        assert(is_live(view, i));
        let individual = view[i].unwrap();
        if let Some(mover) = individual.mover {
            lemma_moved_mover(individual.position, mover.velocity, delta, bound);
        }
        if let Role::Child { parent } = individual.role {
            assert(is_live_root(view, parent as int));
            assert(after[parent as int].unwrap().role == view[parent as int].unwrap().role);
        }
    }
    assert forall|i: int|
        #![trigger moved(view, delta, bound)[i]]
        is_live(view, i) && view[i].unwrap().mover is Some implies moved(
        view,
        delta,
        bound,
    )[i].unwrap().position.within(bound) by {
        let individual = view[i].unwrap();
        lemma_moved_mover(individual.position, individual.mover.unwrap().velocity, delta, bound);
    }
}

/// A step leaves the position between the walls and the velocity
/// negatable.
proof fn lemma_moved_mover(position: Vec3, velocity: Vec3, delta: int, bound: int)
    requires
        velocity.within(i64::MAX as int),
        0 <= bound <= i64::MAX,
    ensures
        moved_position(position, velocity, delta, bound).within(bound),
        moved_velocity(position, velocity, delta, bound).within(i64::MAX as int),
{
}

/// The offset of child `k` from its parent: `k + 1` units along the x axis.
pub open spec fn child_offset(k: int) -> Vec3 {
    Vec3 { x: ((k + 1) * SCALE) as i64, y: 0, z: 0 }
}

/// The root of a seeded family, stored in slot `id`.
pub open spec fn family_root(seed: FamilySeed, id: usize) -> Individual {
    Individual {
        id,
        position: seed.position,
        mover: Some(Mover { velocity: seed.velocity }),
        gene: seed.gene,
        role: Role::Root,
        lifetime: None,
    }
}

/// Child `k` of the seeded family whose root sits in slot `root`.
pub open spec fn family_child(seed: FamilySeed, root: usize, k: int) -> Individual {
    Individual {
        id: (root + 1 + k) as usize,
        position: child_offset(k),
        mover: None,
        gene: seed.child_genes@[k],
        role: Role::Child { parent: root },
        lifetime: None,
    }
}

/// The population with one more family: the root takes the next free slot
/// and its children the slots after it, in the order of their genes.
pub open spec fn with_family(view: Seq<Option<Individual>>, seed: FamilySeed) -> Seq<
    Option<Individual>,
> {
    view.push(Some(family_root(seed, view.len() as usize))) + Seq::new(
        seed.child_genes@.len(),
        |k: int| Some(family_child(seed, view.len() as usize, k)),
    )
}

/// The population with one more family per seed, in the order given.
pub open spec fn with_families(view: Seq<Option<Individual>>, seeds: Seq<FamilySeed>) -> Seq<
    Option<Individual>,
>
    decreases seeds.len(),
{
    if seeds.len() == 0 {
        view
    } else {
        with_family(with_families(view, seeds.drop_last()), seeds.last())
    }
}

/// `after` is `before` with `count` more families of `children` children
/// each, all of them within the seeding bounds.
pub open spec fn is_seeding_outcome(
    before: SimulationView,
    after: SimulationView,
    count: int,
    children: int,
    bounds: SeedBounds,
) -> bool {
    exists|seeds: Seq<FamilySeed>|
        #![trigger with_families(before.members, seeds)]
        seeds.len() == count && (forall|i: int|
            0 <= i < count ==> (#[trigger] seeds[i]).drawn_within(bounds, children)) && after == (
        SimulationView { members: with_families(before.members, seeds), ..before })
}

/// Seeding `count` families of `children` children each adds
/// `count * (1 + children)` slots.
pub proof fn lemma_families_len(
    view: Seq<Option<Individual>>,
    seeds: Seq<FamilySeed>,
    children: int,
)
    requires
        forall|i: int|
            0 <= i < seeds.len() ==> (#[trigger] seeds[i]).child_genes@.len() == children,
    ensures
        with_families(view, seeds).len() == view.len() + seeds.len() * (1 + children),
    decreases seeds.len(),
{
    if seeds.len() > 0 {
        lemma_families_len(view, seeds.drop_last(), children);
        assert(seeds.len() * (1 + children) == seeds.drop_last().len() * (1 + children) + (1
            + children)) by (nonlinear_arith)
            requires
                seeds.drop_last().len() == seeds.len() - 1,
        ;
    }
}

/// Who is left after the selection of this cycle.
pub open spec fn survivors(view: SimulationView) -> Seq<Option<Individual>> {
    selected(view.settings.policy, view.members)
}

/// How many pairs the surviving roots form; a last root without a partner
/// forms none.
pub open spec fn pairs_after_selection(view: SimulationView) -> nat {
    (live_roots(survivors(view)).len() / 2) as nat
}

/// There is a valid draw for every pair that the surviving roots form.
pub open spec fn draws_cover(view: SimulationView, draws: Seq<OffspringDraw>) -> bool {
    &&& draws.len() >= pairs_after_selection(view)
    &&& forall|i: int|
        0 <= i < pairs_after_selection(view) ==> (#[trigger] draws[i]).wf(
            view.settings.mutation_rate as int,
        )
}

/// The offspring of this cycle: the surviving roots, paired in the order of
/// their ids, crossed and mutated under the given draws.
pub open spec fn offspring_of_cycle(view: SimulationView, draws: Seq<OffspringDraw>) -> Seq<
    Offspring,
> {
    offspring_list(
        live_roots(survivors(view)),
        draws,
        view.settings.mutation_rate as int,
        view.generation as int,
    )
}

/// The state after one generation cycle: selection on the population as it
/// was, then reproduction among the surviving roots, then one new root per
/// offspring, and a generation counter that is one higher.
pub open spec fn generation_step(
    view: SimulationView,
    draws: Seq<OffspringDraw>,
) -> SimulationView {
    SimulationView {
        members: with_offspring(
            survivors(view),
            offspring_of_cycle(view, draws),
            view.settings.offspring_lifetime,
        ),
        generation: (view.generation + 1) as u32,
        ..view
    }
}

/// `after` and `report` are what one generation cycle makes of `before`
/// under some valid draws.
pub open spec fn is_cycle_outcome(
    before: SimulationView,
    after: SimulationView,
    report: GenerationReport,
) -> bool {
    &&& exists|draws: Seq<OffspringDraw>|
        draws_cover(before, draws) && #[trigger] generation_step(before, draws) == after
    &&& report.removed_count == live_count(before.members) - live_count(survivors(before))
    &&& report.spawned_count == pairs_after_selection(before)
    &&& report.new_generation == before.generation + 1
}

/// A cycle in which no root survives selection spawns nothing and still
/// raises the generation counter by one.
pub proof fn lemma_barren_cycle(view: SimulationView, draws: Seq<OffspringDraw>)
    requires
        live_roots(survivors(view)).len() == 0,
        view.generation < u32::MAX,
    ensures
        pairs_after_selection(view) == 0,
        generation_step(view, draws).members == survivors(view),
        generation_step(view, draws).generation == view.generation + 1,
{
    assert(offspring_of_cycle(view, draws).len() == 0);
    assert(generation_step(view, draws).members =~= survivors(view));
}

/// `before` holds an individual, and `after` is that individual with the
/// same id, role and gene.
pub open spec fn same_individual(before: Option<Individual>, after: Individual) -> bool {
    &&& before is Some
    &&& after.id == before.unwrap().id
    &&& after.role == before.unwrap().role
    &&& after.gene == before.unwrap().gene
}

/// Removal is final: a slot that is empty stays empty through every tick
/// and every generation cycle, and neither of the two ever changes the id,
/// the role or the gene of an individual that stays.
pub proof fn lemma_removed_is_final(
    view: SimulationView,
    draws: Seq<OffspringDraw>,
    delta: int,
    id: int,
)
    requires
        0 <= id < view.members.len(),
    ensures
        view.members[id] is None ==> ticked(view.members, delta, view.settings.bound as int)[id]
            is None && generation_step(view, draws).members[id] is None,
        ticked(view.members, delta, view.settings.bound as int)[id] matches Some(after)
            ==> same_individual(view.members[id], after),
        generation_step(view, draws).members[id] matches Some(after) ==> view.members[id] == Some(
            after,
        ),
{
}

/// Selection never adds a root, so a draw for every pair of today's roots
/// covers the pairs that survive.
pub proof fn lemma_pairs_bounded(view: SimulationView)
    ensures
        pairs_after_selection(view) <= live_roots(view.members).len() / 2,
{
    lemma_cull_is_remainder(view.members, selection_marks(view.settings.policy, view.members));
    lemma_remainder_is_smaller(survivors(view), view.members);
}

/// Adds one root per offspring to the population, in the order given: at
/// rest, childless, and with `lifetime` left to live.
pub fn spawn_child_cubes(population: &mut Population, new_cubes: &Vec<Offspring>, lifetime: u64)
    requires
        old(population).wf(),
        forall|k: int| 0 <= k < new_cubes@.len() ==> (#[trigger] new_cubes@[k]).gene.in_domain(),
    ensures
        final(population).wf(),
        final(population)@ == with_offspring(old(population)@, new_cubes@, lifetime),
{
    let ghost base = population@;
    let mut k: usize = 0;
    assert(population@ =~= with_offspring(base, new_cubes@.take(0), lifetime));
    while k < new_cubes.len()
        invariant
            k <= new_cubes@.len(),
            population.wf(),
            population@ == with_offspring(base, new_cubes@.take(k as int), lifetime),
            forall|j: int|
                0 <= j < new_cubes@.len() ==> (#[trigger] new_cubes@[j]).gene.in_domain(),
        decreases new_cubes@.len() - k,
    {
        let cube: Offspring = new_cubes[k];
        let ghost previous = population@;
        let id: usize = population.spawn_root(
            cube.position,
            Some(Mover { velocity: Vec3::zero() }),
            cube.gene,
            Some(Lifetime::new(lifetime)),
        );
        proof {
            let longer = with_offspring(base, new_cubes@.take(k + 1), lifetime);
            assert(previous.len() == base.len() + k);
            assert(population@ == previous.push(Some(offspring_member(cube, id, lifetime))));
            assert(population@.len() == longer.len());
            assert forall|j: int| 0 <= j < longer.len() implies population@[j] == longer[j] by {
                if j < base.len() + k {
                    assert(previous[j] == with_offspring(
                        base,
                        new_cubes@.take(k as int),
                        lifetime,
                    )[j]);
                }
            }
            assert(population@ =~= longer);
        }
        k += 1;
    }
    assert(new_cubes@.take(k as int) == new_cubes@);
}

/// The simulation: the population, the generation counter, the settings and
/// the switch that the host flips to let generations run.
pub struct SimulationState {
    /// Whether [`SimulationState::simulation_system`] runs a generation
    /// cycle when it is called.
    pub running: bool,
    generation: GenerationNumber,
    population: Population,
    settings: Settings,
}

impl View for SimulationState {
    type V = SimulationView;

    closed spec fn view(&self) -> SimulationView {
        SimulationView {
            members: self.population@,
            generation: self.generation.current_gen,
            settings: self.settings,
            running: self.running,
        }
    }
}

impl SimulationState {
    /// The store behind the view keeps its own invariants.
    pub closed spec fn store_wf(&self) -> bool {
        self.population.wf()
    }

    /// The population is consistent, the settings are valid, and no
    /// coordinate has left the range that the generation allows.
    pub open spec fn wf(&self) -> bool {
        &&& self.store_wf()
        &&& consistent(self@.members)
        &&& self@.settings.wf()
        &&& within_limit(self@.members, coordinate_limit(self@.generation as int))
    }

    /// A simulation with no individuals, in generation one, not running.
    pub fn new(settings: Settings) -> (state: SimulationState)
        requires
            settings.wf(),
        ensures
            state.wf(),
            state@.members == Seq::<Option<Individual>>::empty(),
            state@.generation == 1,
            state@.settings == settings,
            !state@.running,
    {
        SimulationState {
            running: false,
            generation: GenerationNumber::default(),
            population: Population::new(),
            settings,
        }
    }

    /// The current generation.
    pub fn generation(&self) -> (generation: GenerationNumber)
        ensures
            generation.current_gen == self@.generation,
    {
        self.generation
    }

    /// The settings the simulation was made with.
    pub fn settings(&self) -> (settings: Settings)
        ensures
            settings == self@.settings,
    {
        self.settings
    }

    /// The population store, for reading.
    pub fn population(&self) -> (population: &Population)
        ensures
            population@ == self@.members,
            self.wf() ==> population.wf(),
    {
        &self.population
    }

    /// The live individuals, in the order of their ids.
    pub fn snapshot(&self) -> (members: Vec<Individual>)
        ensures
            members@ == live_members(self@.members),
    {
        self.population.snapshot()
    }

    /// Moves every individual that has a mover by `velocity * delta`,
    /// reflecting at the walls.
    pub fn move_cubes(&mut self, delta: u64)
        requires
            old(self).wf(),
        ensures
            final(self).wf(),
            final(self)@ == (SimulationView {
                members: moved(
                    old(self)@.members,
                    delta as int,
                    old(self)@.settings.bound as int,
                ),
                ..old(self)@
            }),
    {
        let n: usize = self.population.slot_count();
        let bound: i64 = self.settings.bound;
        let ghost before = self.population@;
        let ghost target = moved(before, delta as int, bound as int);
        proof {
            lemma_moved_consistent(before, delta as int, bound as int);
        }
        let mut i: usize = 0;
        while i < n
            invariant
                i <= n,
                n == before.len(),
                0 <= bound,
                consistent(before),
                target == moved(before, delta as int, bound as int),
                self.population.wf(),
                self.population@.len() == n,
                forall|j: int| 0 <= j < i ==> self.population@[j] == target[j],
                forall|j: int| i <= j < n ==> self.population@[j] == before[j],
                self.generation == old(self).generation,
                self.settings == old(self).settings,
                self.running == old(self).running,
            decreases n - i,
        {
            match self.population.get(i) {
                Some(individual) => {
                    assert(before[i as int] == Some(individual));
                    match individual.mover {
                        Some(current) => {
                            let mut mover: Mover = current;
                            let position: Vec3 = mover.integrate(individual.position, delta, bound);
                            let updated = Individual {
                                id: individual.id,
                                position,
                                mover: Some(mover),
                                gene: individual.gene,
                                role: individual.role,
                                lifetime: individual.lifetime,
                            };
                            assert(updated == moved_individual(
                                individual,
                                delta as int,
                                bound as int,
                            ));
                            self.population.update(updated);
                        },
                        None => {},
                    }
                },
                None => {},
            }
            i += 1;
        }
        proof {
            assert(self.population@ =~= target);
            let limit = coordinate_limit(self@.generation as int);
            assert forall|j: int| #![trigger target[j]] is_live(target, j) implies target[j].unwrap(
            ).position.within(limit) by {
                assert(is_live(before, j));
                assert(before[j].unwrap().position.within(limit));
                if before[j].unwrap().mover is Some {
                    assert(moved(before, delta as int, bound as int)[j].unwrap().position.within(
                        bound as int,
                    ));
                }
            }
        }
    }

    /// Advances every countdown by `delta` and removes each individual whose
    /// countdown ran out, a root together with its children. Returns how
    /// many individuals were removed.
    pub fn despawn_cubes(&mut self, delta: u64) -> (removed: usize)
        requires
            old(self).wf(),
        ensures
            final(self).wf(),
            final(self)@ == (SimulationView {
                members: despawned(old(self)@.members, delta as int),
                ..old(self)@
            }),
            removed == live_count(old(self)@.members) - live_count(final(self)@.members),
    {
        let n: usize = self.population.slot_count();
        let ghost before = self.population@;
        let ghost target = aged(before, delta as int);
        let ghost flags = expiry_marks(before, delta as int);
        let mut marks: Vec<bool> = Vec::new();
        let mut i: usize = 0;
        while i < n
            invariant
                i <= n,
                n == before.len(),
                consistent(before),
                target == aged(before, delta as int),
                flags == expiry_marks(before, delta as int),
                self.population.wf(),
                self.population@.len() == n,
                marks@ == flags.take(i as int),
                forall|j: int| 0 <= j < i ==> self.population@[j] == target[j],
                forall|j: int| i <= j < n ==> self.population@[j] == before[j],
                self.generation == old(self).generation,
                self.settings == old(self).settings,
                self.running == old(self).running,
            decreases n - i,
        {
            let mut finished: bool = false;
            match self.population.get(i) {
                Some(individual) => {
                    assert(before[i as int] == Some(individual));
                    match individual.lifetime {
                        Some(current) => {
                            let mut lifetime: Lifetime = current;
                            finished = lifetime.tick(delta);
                            let updated = Individual {
                                id: individual.id,
                                position: individual.position,
                                mover: individual.mover,
                                gene: individual.gene,
                                role: individual.role,
                                lifetime: Some(lifetime),
                            };
                            assert(updated == aged_individual(individual, delta as int));
                            self.population.update(updated);
                        },
                        None => {},
                    }
                },
                None => {},
            }
            assert(finished == flags[i as int]);
            marks.push(finished);
            assert(flags.take(i + 1) == flags.take(i as int).push(flags[i as int]));
            i += 1;
        }
        proof {
            assert(flags.take(n as int) == flags);
            assert(self.population@ =~= target);
            lemma_live_aged(before, delta as int);
        }
        let removed: usize = self.population.cull(&marks);
        proof {
            let after = self.population@;
            let limit = coordinate_limit(self@.generation as int);
            assert forall|j: int| #![trigger after[j]] is_live(after, j) implies after[j].unwrap(
            ).position.within(limit) by {
                assert(after[j] == target[j]);
                assert(is_live(before, j));
                assert(before[j].unwrap().position.within(limit));
            }
        }
        removed
    }

    /// One tick of `delta`: movement, then expiry.
    pub fn tick(&mut self, delta: u64)
        requires
            old(self).wf(),
        ensures
            final(self).wf(),
            final(self)@ == (SimulationView {
                members: ticked(
                    old(self)@.members,
                    delta as int,
                    old(self)@.settings.bound as int,
                ),
                ..old(self)@
            }),
    {
        self.move_cubes(delta);
        self.despawn_cubes(delta);
    }

    /// Adds one family: a root that moves, and its children at one, two,
    /// three and more units from it along the x axis. Returns the id of the
    /// root.
    pub fn spawn_family(&mut self, seed: &FamilySeed) -> (root: usize)
        requires
            old(self).wf(),
            seed.wf(),
        ensures
            final(self).wf(),
            root == old(self)@.members.len(),
            final(self)@ == (SimulationView {
                members: with_family(old(self)@.members, *seed),
                ..old(self)@
            }),
    {
        let ghost base = self.population@;
        let ghost limit = coordinate_limit(self.generation.current_gen as int);
        let root: usize = self.population.spawn_root(
            seed.position,
            Some(Mover { velocity: seed.velocity }),
            seed.gene,
            None,
        );
        let ghost rooted = self.population@;
        let count: usize = seed.child_genes.len();
        let mut k: usize = 0;
        assert(Seq::new(0, |j: int| Some(family_child(*seed, root, j))) =~= Seq::<
            Option<Individual>,
        >::empty());
        assert(rooted + Seq::<Option<Individual>>::empty() =~= rooted);
        while k < count
            invariant
                k <= count,
                count == seed.child_genes@.len(),
                seed.wf(),
                root == base.len(),
                rooted == base.push(Some(family_root(*seed, root))),
                self.population.wf(),
                self.population@ == rooted + Seq::new(
                    k as nat,
                    |j: int| Some(family_child(*seed, root, j)),
                ),
                self.generation == old(self).generation,
                self.settings == old(self).settings,
                self.running == old(self).running,
            decreases count - k,
        {
            let ghost previous = self.population@;
            assert(previous[root as int] == rooted[root as int]);
            let steps: i64 = k as i64 + 1;
            let offset = Vec3 { x: steps * SCALE, y: 0, z: 0 };
            let gene: ColorGroup = seed.child_genes[k];
            let id: usize = self.population.spawn_child(root, offset, gene);
            proof {
                let longer = rooted + Seq::new(
                    (k + 1) as nat,
                    |j: int| Some(family_child(*seed, root, j)),
                );
                assert(offset == child_offset(k as int));
                assert(id == root + 1 + k);
                assert(self.population@.len() == longer.len());
                assert forall|j: int| 0 <= j < longer.len() implies self.population@[j]
                    == longer[j] by {
                    if j < previous.len() {
                        assert(self.population@[j] == previous[j]);
                    }
                }
                assert(self.population@ =~= longer);
            }
            k += 1;
        }
        proof {
            let after = self.population@;
            assert(after =~= with_family(base, *seed));
            assert forall|j: int| #![trigger after[j]] is_live(after, j) implies after[j].unwrap(
            ).position.within(limit) by {
                if j < base.len() {
                    assert(after[j] == base[j]);
                    assert(is_live(base, j));
                } else if j > base.len() {
                    let c = j - base.len() - 1;
                    assert(after[j] == Some(family_child(*seed, root, c)));
                    assert(0 < (c + 1) * SCALE <= seed.child_genes@.len() * SCALE)
                        by (nonlinear_arith)
                        requires
                            0 <= c < seed.child_genes@.len(),
                    ;
                }
            }
        }
        root
    }

    /// Seeds the first generation: `count` families of `children_per_root`
    /// children each, with positions, velocities and genes drawn from the
    /// generator of the calling thread within `bounds`.
    pub fn spawn_first_gen(&mut self, count: usize, children_per_root: usize, bounds: &SeedBounds)
        requires
            old(self).wf(),
            bounds.wf(),
            children_per_root * SCALE <= WORLD_LIMIT,
        ensures
            final(self).wf(),
            is_seeding_outcome(
                old(self)@,
                final(self)@,
                count as int,
                children_per_root as int,
                *bounds,
            ),
    {
        let mut rng = rand::thread_rng();
        let ghost base = self.population@;
        let ghost mut seeds: Seq<FamilySeed> = Seq::empty();
        let mut i: usize = 0;
        while i < count
            invariant
                i <= count,
                bounds.wf(),
                children_per_root * SCALE <= WORLD_LIMIT,
                self.wf(),
                seeds.len() == i,
                forall|j: int|
                    0 <= j < i ==> (#[trigger] seeds[j]).drawn_within(
                        *bounds,
                        children_per_root as int,
                    ),
                self@ == (SimulationView { members: with_families(base, seeds), ..old(self)@ }),
            decreases count - i,
        {
            let seed: FamilySeed = draw_family(&mut rng, bounds, children_per_root);
            self.spawn_family(&seed);
            proof {
                let longer = seeds.push(seed);
                assert(longer.drop_last() == seeds);
                assert(longer.last() == seed);
                seeds = longer;
            }
            i += 1;
        }
        assert(self@ == (SimulationView { members: with_families(base, seeds), ..old(self)@ }));
    }

    /// Runs one generation cycle with the given draws: selection on the
    /// population as it is, reproduction among the surviving roots, one new
    /// root per offspring, and the generation counter raised by one. Pair
    /// `i` uses draw `i`.
    pub fn process_generation(&mut self, draws: &Vec<OffspringDraw>) -> (report: GenerationReport)
        requires
            old(self).wf(),
            old(self)@.generation < u32::MAX,
            draws_cover(old(self)@, draws@),
        ensures
            final(self).wf(),
            final(self)@ == generation_step(old(self)@, draws@),
            report.removed_count == live_count(old(self)@.members) - live_count(
                survivors(old(self)@),
            ),
            report.spawned_count == pairs_after_selection(old(self)@),
            report.new_generation == old(self)@.generation + 1,
    {
        let policy: SelectionPolicy = self.settings.policy;
        let rate: u32 = self.settings.mutation_rate;
        let generation: u32 = self.generation.current_gen;
        let ghost before = self.population@;
        let ghost limit = coordinate_limit(generation as int);
        let removed: usize = evaluate_fitness(&mut self.population, &policy);
        let ghost left = self.population@;
        let parents: Vec<Individual> = self.population.determine_parents();
        proof {
            assert(left == survivors(old(self)@));
            assert forall|k: int| 0 <= k < parents@.len() implies (
            #[trigger] parents@[k]).position.within(limit) && parents@[k].gene.in_domain() by {
                lemma_live_roots_are_live(left, k);
                let i = choose|i: int|
                    is_live_root(left, i) && #[trigger] left[i] == Some(
                        live_roots(left)[k],
                    );
                assert(left[i] == before[i]);
                assert(is_live(before, i));
            }
            assert(limit <= i64::MAX - rate);
        }
        let new_cubes: Vec<Offspring> = perform_crossover(&parents, draws, rate, generation);
        proof {
            assert forall|k: int| 0 <= k < new_cubes@.len() implies (
            #[trigger] new_cubes@[k]).gene.in_domain() && new_cubes@[k].position.within(
                limit + SCALE,
            ) by {
                lemma_offspring_bounds(
                    parents@[2 * k],
                    parents@[2 * k + 1],
                    draws@[k],
                    rate as int,
                    generation as int,
                    limit,
                );
            }
        }
        spawn_child_cubes(&mut self.population, &new_cubes, self.settings.offspring_lifetime);
        self.generation.current_gen = generation + 1;
        proof {
            let after = self.population@;
            assert(coordinate_limit(generation + 1) == limit + SCALE);
            assert forall|j: int| #![trigger after[j]] is_live(after, j) implies after[j].unwrap(
            ).position.within(limit + SCALE) by {
                if j < left.len() {
                    assert(after[j] == left[j]);
                    assert(left[j] == before[j]);
                    assert(is_live(before, j));
                } else {
                    let k = j - left.len();
                    assert(after[j] == Some(
                        offspring_member(
                            new_cubes@[k],
                            (left.len() + k) as usize,
                            self.settings.offspring_lifetime,
                        ),
                    ));
                    assert(new_cubes@[k].position.within(limit + SCALE));
                }
            }
        }
        GenerationReport {
            removed_count: removed,
            spawned_count: new_cubes.len(),
            new_generation: generation + 1,
        }
    }

    /// What the host calls on every frame: runs one generation cycle if the
    /// simulation is switched on, and nothing otherwise.
    pub fn simulation_system(&mut self) -> (report: Option<GenerationReport>)
        requires
            old(self).wf(),
            old(self)@.running ==> old(self)@.generation < u32::MAX,
        ensures
            final(self).wf(),
            !old(self)@.running ==> report is None && final(self)@ == old(self)@,
            old(self)@.running ==> report is Some && is_cycle_outcome(
                old(self)@,
                final(self)@,
                report.unwrap(),
            ),
    {
        if self.running {
            Some(process_generation_system(self))
        } else {
            None
        }
    }
}

/// Runs one generation cycle with draws from the generator of the calling
/// thread: whatever is drawn, the state afterwards is the one that
/// [`SimulationState::process_generation`] reaches with some valid draws.
pub fn process_generation_system(state: &mut SimulationState) -> (report: GenerationReport)
    requires
        old(state).wf(),
        old(state)@.generation < u32::MAX,
    ensures
        final(state).wf(),
        is_cycle_outcome(old(state)@, final(state)@, report),
{
    let roots: Vec<Individual> = state.population().determine_parents();
    let mut rng = rand::thread_rng();
    let draws: Vec<OffspringDraw> = draw_offspring_batch(
        &mut rng,
        roots.len() / 2,
        state.settings().mutation_rate,
    );
    proof {
        lemma_pairs_bounded(state@);
    }
    let report: GenerationReport = state.process_generation(&draws);
    assert(generation_step(old(state)@, draws@) == state@);
    report
}

/// Draws one family within the seeding bounds.
pub fn draw_family(rng: &mut rand::rngs::ThreadRng, bounds: &SeedBounds, children: usize) -> (seed:
    FamilySeed)
    requires
        bounds.wf(),
        children * SCALE <= WORLD_LIMIT,
    ensures
        seed.drawn_within(*bounds, children as int),
        seed.wf(),
{
    let position = Vec3 {
        x: random_in_range(rng, bounds.low.x, bounds.high.x),
        y: random_in_range(rng, bounds.low.y, bounds.high.y),
        z: random_in_range(rng, bounds.low.z, bounds.high.z),
    };
    let velocity = Vec3 {
        x: random_in_range(rng, -bounds.max_speed, bounds.max_speed),
        y: random_in_range(rng, -bounds.max_speed, bounds.max_speed),
        z: random_in_range(rng, -bounds.max_speed, bounds.max_speed),
    };
    let gene: ColorGroup = draw_gene(rng);
    let mut child_genes: Vec<ColorGroup> = Vec::new();
    let mut k: usize = 0;
    while k < children
        invariant
            k <= children,
            child_genes@.len() == k,
            forall|j: int| 0 <= j < k ==> (#[trigger] child_genes@[j]).in_domain(),
        decreases children - k,
    {
        let child_gene: ColorGroup = draw_gene(rng);
        child_genes.push(child_gene);
        k += 1;
    }
    FamilySeed { position, velocity, gene, child_genes }
}

/// Draws a gene, every colour group being equally likely.
pub fn draw_gene(rng: &mut rand::rngs::ThreadRng) -> (gene: ColorGroup)
    ensures
        gene.in_domain(),
{
    let ordinal: i64 = random_in_range(rng, 0, GENE_COUNT as i64 - 1);
    ColorGroup(ordinal as u8)
}

/// Ageing changes no count: whoever lived before lives after.
pub proof fn lemma_live_aged(view: Seq<Option<Individual>>, delta: int)
    ensures
        live_count(aged(view, delta)) == live_count(view),
    decreases view.len(),
{
    if view.len() > 0 {
        assert(aged(view, delta).drop_last() =~= aged(view.drop_last(), delta));
        lemma_live_aged(view.drop_last(), delta);
    }
}

} // verus!
