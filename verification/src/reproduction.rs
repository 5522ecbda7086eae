//! Pairing, crossover and mutation.
//!
//! Chance enters as data: one [`OffspringDraw`] per pair of parents holds
//! the numbers that were drawn for it, and everything else is a function of
//! the parents, the draw and the generation. A caller that fixes the draws
//! fixes the offspring.

use crate::fixed::{blend, blend_spec, lemma_blend_between, Vec3, SCALE};
use crate::gene::{gene_is_target, is_target, ColorGroup, TARGET_GENE};
use crate::population::Individual;
use crate::random::random_in_range;
use vstd::prelude::*;

verus! {

/// The default mutation rate (`0.001`): the reach of the position jitter
/// and the chance of a forced target gene in generation zero.
pub const MUTATION_RATE: u32 = 1_000;

/// By how much the chance of a forced target gene grows with every
/// generation (`0.0005`).
pub const TARGET_BIAS: u32 = 500;

/// The crossover slice at which the second parent's gene takes over
/// (`0.5`).
pub const HALF: u32 = 500_000;

/// What reproduction hands to the population: the gene and the position of
/// one new individual.
#[derive(Clone, Copy, Debug, PartialEq, Eq)]
pub struct Offspring {
    pub gene: ColorGroup,
    pub position: Vec3,
}

/// The random numbers behind one offspring.
#[derive(Clone, Copy, Debug, PartialEq, Eq)]
pub struct OffspringDraw {
    /// The crossover slice, uniform on `[0, SCALE]`: the weight of the first
    /// parent, in millionths.
    pub slice: u32,
    /// The perturbation of the position, each axis uniform on
    /// `[-rate, rate]`.
    pub jitter: Vec3,
    /// Uniform on `[0, SCALE)`; the target gene is forced when it falls
    /// below the mutation chance.
    pub roll: u32,
}

impl OffspringDraw {
    /// Every number lies in the range it is drawn from at mutation rate
    /// `rate`.
    pub open spec fn wf(self, rate: int) -> bool {
        &&& self.slice <= SCALE
        &&& self.jitter.within(rate)
        &&& self.roll < SCALE
    }
}

/// The chance, in millionths, that mutation forces the target gene:
/// `min(1, rate + TARGET_BIAS * generation)`.
pub open spec fn mutation_chance(rate: int, generation: int) -> int {
    if rate + TARGET_BIAS * generation >= SCALE {
        SCALE as int
    } else {
        rate + TARGET_BIAS * generation
    }
}

/// The gene of a child before mutation: the target gene if either parent
/// carries it, else the gene of the first parent below a slice of one half
/// and the gene of the second parent from one half on.
pub open spec fn crossed_gene(first: ColorGroup, second: ColorGroup, slice: int) -> ColorGroup {
    if gene_is_target(first) || gene_is_target(second) {
        ColorGroup(TARGET_GENE)
    } else if slice < HALF {
        first
    } else {
        second
    }
}

/// The position of a child before mutation:
/// `first * slice + second * (1 - slice)` on every axis.
pub open spec fn crossed_position(first: Vec3, second: Vec3, slice: int) -> Vec3 {
    Vec3 {
        x: blend_spec(first.x as int, second.x as int, slice) as i64,
        y: blend_spec(first.y as int, second.y as int, slice) as i64,
        z: blend_spec(first.z as int, second.z as int, slice) as i64,
    }
}

/// The gene after mutation: the target gene when the roll falls below the
/// chance, else the gene as it was.
pub open spec fn mutated_gene(gene: ColorGroup, chance: int, roll: int) -> ColorGroup {
    if roll < chance {
        ColorGroup(TARGET_GENE)
    } else {
        gene
    }
}

/// The position after mutation: the jitter added on every axis.
pub open spec fn mutated_position(position: Vec3, jitter: Vec3) -> Vec3 {
    Vec3 {
        x: (position.x + jitter.x) as i64,
        y: (position.y + jitter.y) as i64,
        z: (position.z + jitter.z) as i64,
    }
}

/// The sum of two vectors fits the coordinate type on every axis.
pub open spec fn sum_fits(a: Vec3, b: Vec3) -> bool {
    &&& i64::MIN <= a.x + b.x <= i64::MAX
    &&& i64::MIN <= a.y + b.y <= i64::MAX
    &&& i64::MIN <= a.z + b.z <= i64::MAX
}

/// The offspring of two parents under one draw: crossover, then mutation.
pub open spec fn offspring_of(
    first: Individual,
    second: Individual,
    draw: OffspringDraw,
    rate: int,
    generation: int,
) -> Offspring {
    Offspring {
        gene: mutated_gene(
            crossed_gene(first.gene, second.gene, draw.slice as int),
            mutation_chance(rate, generation),
            draw.roll as int,
        ),
        position: mutated_position(
            crossed_position(first.position, second.position, draw.slice as int),
            draw.jitter,
        ),
    }
}

/// The offspring of a list of parents: parents `2i` and `2i + 1` form pair
/// `i` and use draw `i`; a last parent without a partner has no offspring.
pub open spec fn offspring_list(
    parents: Seq<Individual>,
    draws: Seq<OffspringDraw>,
    rate: int,
    generation: int,
) -> Seq<Offspring> {
    Seq::new(
        (parents.len() / 2) as nat,
        |i: int| offspring_of(parents[2 * i], parents[2 * i + 1], draws[i], rate, generation),
    )
}

/// The chance of a forced target gene never shrinks from one generation to
/// a later one, never exceeds one, and is exactly one from the generation on
/// in which `rate + TARGET_BIAS * generation` reaches one.
pub proof fn lemma_mutation_chance_grows(rate: int, earlier: int, later: int)
    requires
        0 <= rate,
        0 <= earlier <= later,
    ensures
        mutation_chance(rate, earlier) <= mutation_chance(rate, later) <= SCALE,
        rate + TARGET_BIAS * later >= SCALE ==> mutation_chance(rate, later) == SCALE,
{
}

/// Once the chance has reached one, every roll forces the target gene.
pub proof fn lemma_certain_mutation(gene: ColorGroup, rate: int, generation: int, roll: int)
    requires
        rate + TARGET_BIAS * generation >= SCALE,
        roll < SCALE,
    ensures
        mutated_gene(gene, mutation_chance(rate, generation), roll) == ColorGroup(TARGET_GENE),
{
}

/// A child of a parent that carries the target gene carries it before
/// mutation, whatever the slice.
pub proof fn lemma_target_gene_dominates(first: ColorGroup, second: ColorGroup, slice: int)
    requires
        gene_is_target(first) || gene_is_target(second),
    ensures
        crossed_gene(first, second, slice) == ColorGroup(TARGET_GENE),
{
}

/// The offspring of well-formed parents carries a declared gene, and its
/// position strays from the span of its parents by the jitter at most.
pub proof fn lemma_offspring_bounds(
    first: Individual,
    second: Individual,
    draw: OffspringDraw,
    rate: int,
    generation: int,
    limit: int,
)
    requires
        first.gene.in_domain(),
        second.gene.in_domain(),
        first.position.within(limit),
        second.position.within(limit),
        draw.wf(rate),
        0 <= rate,
        limit + rate <= i64::MAX,
    ensures
        offspring_of(first, second, draw, rate, generation).gene.in_domain(),
        offspring_of(first, second, draw, rate, generation).position.within(limit + rate),
        crossed_position(first.position, second.position, draw.slice as int).within(limit),
{
    let s = draw.slice as int;
    lemma_blend_between(first.position.x as int, second.position.x as int, s);
    lemma_blend_between(first.position.y as int, second.position.y as int, s);
    lemma_blend_between(first.position.z as int, second.position.z as int, s);
}

/// The chance, in millionths, that mutation forces the target gene in the
/// given generation.
pub fn mutation_probability(mutation_rate: u32, generation: u32) -> (chance: u32)
    ensures
        chance == mutation_chance(mutation_rate as int, generation as int),
        chance <= SCALE,
{
    let bias: u64 = TARGET_BIAS as u64;
    assert(bias * generation <= 500 * 0xffff_ffff) by (nonlinear_arith)
        requires
            bias == 500,
            generation <= 0xffff_ffff,
    ;
    let raised: u64 = mutation_rate as u64 + bias * generation as u64;
    if raised >= SCALE as u64 {
        SCALE as u32
    } else {
        raised as u32
    }
}

/// Crosses two parents at the given slice: the child before mutation.
pub fn crossover(parent1: &Individual, parent2: &Individual, slice: u32) -> (child: Offspring)
    requires
        slice <= SCALE,
    ensures
        child.gene == crossed_gene(parent1.gene, parent2.gene, slice as int),
        child.position == crossed_position(parent1.position, parent2.position, slice as int),
{
    let gene: ColorGroup = if is_target(parent1.gene) || is_target(parent2.gene) {
        ColorGroup(TARGET_GENE)
    } else if slice < HALF {
        parent1.gene
    } else {
        parent2.gene
    };
    let position = Vec3 {
        x: blend(parent1.position.x, parent2.position.x, slice),
        y: blend(parent1.position.y, parent2.position.y, slice),
        z: blend(parent1.position.z, parent2.position.z, slice),
    };
    Offspring { gene, position }
}

/// Mutates a position and a gene: the jitter is added to the position, and
/// the gene becomes the target gene when `roll` falls below the chance that
/// [`mutation_probability`] gives for the rate and the generation.
pub fn mutate(
    position: Vec3,
    color_group: ColorGroup,
    mutation_rate: u32,
    generation: u32,
    jitter: Vec3,
    roll: u32,
) -> (mutated: (Vec3, ColorGroup))
    requires
        sum_fits(position, jitter),
    ensures
        mutated.0 == mutated_position(position, jitter),
        mutated.1 == mutated_gene(
            color_group,
            mutation_chance(mutation_rate as int, generation as int),
            roll as int,
        ),
{
    let chance: u32 = mutation_probability(mutation_rate, generation);
    let mutated_position = Vec3 {
        x: position.x + jitter.x,
        y: position.y + jitter.y,
        z: position.z + jitter.z,
    };
    let mutated_color_group: ColorGroup = if roll < chance {
        ColorGroup(TARGET_GENE)
    } else {
        color_group
    };
    (mutated_position, mutated_color_group)
}

/// Pairs the parents in the order given, `(0, 1)`, `(2, 3)` and so on, and
/// produces one offspring per pair from the draw of the same index. A last
/// parent without a partner is skipped, and draws beyond the number of
/// pairs are not used.
pub fn perform_crossover(
    parents: &Vec<Individual>,
    draws: &Vec<OffspringDraw>,
    mutation_rate: u32,
    generation: u32,
) -> (new_cubes: Vec<Offspring>)
    requires
        draws@.len() >= parents@.len() / 2,
        forall|i: int|
            0 <= i < parents@.len() ==> (#[trigger] parents@[i]).position.within(
                i64::MAX - mutation_rate,
            ),
        forall|i: int|
            0 <= i < parents@.len() / 2 ==> (#[trigger] draws@[i]).wf(mutation_rate as int),
    ensures
        new_cubes@ == offspring_list(
            parents@,
            draws@,
            mutation_rate as int,
            generation as int,
        ),
{
    let count: usize = parents.len();
    let pairs: usize = count / 2;
    let ghost target = offspring_list(parents@, draws@, mutation_rate as int, generation as int);
    let mut new_cubes: Vec<Offspring> = Vec::new();
    let mut i: usize = 0;
    while i < pairs
        invariant
            i <= pairs,
            count == parents@.len(),
            pairs == count / 2,
            draws@.len() >= pairs,
            forall|j: int|
                0 <= j < parents@.len() ==> (#[trigger] parents@[j]).position.within(
                    i64::MAX - mutation_rate,
                ),
            forall|j: int| 0 <= j < pairs ==> (#[trigger] draws@[j]).wf(mutation_rate as int),
            target == offspring_list(parents@, draws@, mutation_rate as int, generation as int),
            new_cubes@ == target.take(i as int),
        decreases pairs - i,
    {
        let parent1: Individual = parents[2 * i];
        let parent2: Individual = parents[2 * i + 1];
        let draw: OffspringDraw = draws[i];
        assert(draw.wf(mutation_rate as int));
        let child: Offspring = crossover(&parent1, &parent2, draw.slice);
        proof {
            let slice = draw.slice as int;
            lemma_blend_between(parent1.position.x as int, parent2.position.x as int, slice);
            lemma_blend_between(parent1.position.y as int, parent2.position.y as int, slice);
            lemma_blend_between(parent1.position.z as int, parent2.position.z as int, slice);
        }
        let mutated: (Vec3, ColorGroup) = mutate(
            child.position,
            child.gene,
            mutation_rate,
            generation,
            draw.jitter,
            draw.roll,
        );
        new_cubes.push(Offspring { gene: mutated.1, position: mutated.0 });
        assert(target.take(i + 1) == target.take(i as int).push(target[i as int]));
        i += 1;
    }
    assert(target.take(pairs as int) == target);
    new_cubes
}

/// Draws the random numbers for one offspring at the given mutation rate.
pub fn draw_offspring(rng: &mut rand::rngs::ThreadRng, mutation_rate: u32) -> (draw: OffspringDraw)
    ensures
        draw.wf(mutation_rate as int),
{
    let slice: i64 = random_in_range(rng, 0, SCALE);
    let reach: i64 = mutation_rate as i64;
    let x: i64 = random_in_range(rng, -reach, reach);
    let y: i64 = random_in_range(rng, -reach, reach);
    let z: i64 = random_in_range(rng, -reach, reach);
    let roll: i64 = random_in_range(rng, 0, SCALE - 1);
    OffspringDraw { slice: slice as u32, jitter: Vec3 { x, y, z }, roll: roll as u32 }
}

/// Draws the random numbers for `count` offspring.
pub fn draw_offspring_batch(
    rng: &mut rand::rngs::ThreadRng,
    count: usize,
    mutation_rate: u32,
) -> (draws: Vec<OffspringDraw>)
    ensures
        draws@.len() == count,
        forall|i: int| 0 <= i < count ==> (#[trigger] draws@[i]).wf(mutation_rate as int),
{
    let mut draws: Vec<OffspringDraw> = Vec::new();
    let mut i: usize = 0;
    while i < count
        invariant
            i <= count,
            draws@.len() == i,
            forall|j: int| 0 <= j < i ==> (#[trigger] draws@[j]).wf(mutation_rate as int),
        decreases count - i,
    {
        let draw: OffspringDraw = draw_offspring(rng, mutation_rate);
        draws.push(draw);
        i += 1;
    }
    draws
}

} // verus!
