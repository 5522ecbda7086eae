use evolution_sim::fixed::Vec3;
use evolution_sim::gene::ColorGroup;
use evolution_sim::population::{Individual, Role};
use evolution_sim::reproduction::{
    crossover, draw_offspring, draw_offspring_batch, mutate, mutation_probability,
    perform_crossover, Offspring, OffspringDraw, HALF, MUTATION_RATE, TARGET_BIAS,
};

fn parent_at(id: usize, gene: u8, x: i64, y: i64, z: i64) -> Individual {
    Individual {
        id,
        position: Vec3::new(x, y, z),
        mover: None,
        gene: ColorGroup(gene),
        role: Role::Root,
        lifetime: None,
    }
}

fn calm(slice: u32) -> OffspringDraw {
    // A roll at the top of its range never forces the target while the
    // chance is below one.
    OffspringDraw { slice, jitter: Vec3::zero(), roll: 999_999 }
}

#[test]
fn the_constants_of_mutation() {
    assert_eq!(MUTATION_RATE, 1_000);
    assert_eq!(TARGET_BIAS, 500);
    assert_eq!(HALF, 500_000);
}

#[test]
fn crossover_blends_the_positions_by_the_slice() {
    // slice 0.3 = the weight of the first parent
    let near = parent_at(0, 0, 10_000_000, 0, 0);
    let far = parent_at(1, 1, 0, 0, 0);
    let child = crossover(&near, &far, 300_000);
    assert_eq!(child.position, Vec3::new(3_000_000, 0, 0));
    let child = crossover(&far, &near, 300_000);
    assert_eq!(child.position, Vec3::new(7_000_000, 0, 0));
}

#[test]
fn crossover_blends_every_axis() {
    let a = parent_at(0, 0, 1_000_000, -2_000_000, 4_000_000);
    let b = parent_at(1, 0, 3_000_000, 2_000_000, -4_000_000);
    let child = crossover(&a, &b, 250_000);
    assert_eq!(child.position, Vec3::new(2_500_000, 1_000_000, -2_000_000));
    assert_eq!(crossover(&a, &b, 1_000_000).position, a.position);
    assert_eq!(crossover(&a, &b, 0).position, b.position);
}

#[test]
fn the_gene_comes_from_the_first_parent_below_one_half() {
    let a = parent_at(0, 0, 0, 0, 0);
    let b = parent_at(1, 1, 0, 0, 0);
    assert_eq!(crossover(&a, &b, 0).gene, ColorGroup(0));
    assert_eq!(crossover(&a, &b, 499_999).gene, ColorGroup(0));
    assert_eq!(crossover(&a, &b, 500_000).gene, ColorGroup(1));
    assert_eq!(crossover(&a, &b, 1_000_000).gene, ColorGroup(1));
}

#[test]
fn the_target_gene_dominates() {
    for other in 0..6u8 {
        for slice in [0u32, 1, 499_999, 500_000, 999_999, 1_000_000] {
            let target = parent_at(0, 3, 0, 0, 0);
            let mate = parent_at(1, other, 0, 0, 0);
            assert_eq!(crossover(&target, &mate, slice).gene, ColorGroup(3));
            assert_eq!(crossover(&mate, &target, slice).gene, ColorGroup(3));
        }
    }
}

#[test]
fn the_mutation_chance_grows_with_the_generation_and_stops_at_one() {
    assert_eq!(mutation_probability(1_000, 0), 1_000);
    assert_eq!(mutation_probability(1_000, 1), 1_500);
    assert_eq!(mutation_probability(1_000, 2), 2_000);
    assert_eq!(mutation_probability(1_000, 1_997), 999_500);
    assert_eq!(mutation_probability(1_000, 1_998), 1_000_000);
    assert_eq!(mutation_probability(1_000, 1_999), 1_000_000);
    assert_eq!(mutation_probability(1_000, u32::MAX), 1_000_000);
    assert_eq!(mutation_probability(0, 0), 0);
    assert_eq!(mutation_probability(100_000, 10), 105_000);
    assert_eq!(mutation_probability(u32::MAX, u32::MAX), 1_000_000);
}

#[test]
fn the_mutation_chance_never_shrinks() {
    let mut last = 0;
    for generation in 0..2_500u32 {
        let chance = mutation_probability(MUTATION_RATE, generation);
        assert!(chance >= last);
        assert!(chance <= 1_000_000);
        last = chance;
    }
    assert_eq!(last, 1_000_000);
}

#[test]
fn mutation_adds_the_jitter() {
    let (position, gene) = mutate(
        Vec3::new(1_000_000, 2_000_000, -3_000_000),
        ColorGroup(1),
        1_000,
        1,
        Vec3::new(1_000, -1_000, 7),
        999_999,
    );
    assert_eq!(position, Vec3::new(1_001_000, 1_999_000, -2_999_993));
    assert_eq!(gene, ColorGroup(1));
}

#[test]
fn mutation_forces_the_target_when_the_roll_is_below_the_chance() {
    // rate 0.001 in generation 1: chance 0.0015
    let at = |roll: u32| mutate(Vec3::zero(), ColorGroup(1), 1_000, 1, Vec3::zero(), roll).1;
    assert_eq!(at(0), ColorGroup(3));
    assert_eq!(at(1_499), ColorGroup(3));
    assert_eq!(at(1_500), ColorGroup(1));
    assert_eq!(at(999_999), ColorGroup(1));
}

#[test]
fn mutation_is_certain_once_the_chance_is_one() {
    for roll in [0u32, 1, 500_000, 999_999] {
        let (_, gene) = mutate(Vec3::zero(), ColorGroup(0), 1_000, 1_998, Vec3::zero(), roll);
        assert_eq!(gene, ColorGroup(3));
    }
}

#[test]
fn mutation_never_happens_at_chance_zero() {
    for roll in [0u32, 1, 999_999] {
        let (_, gene) = mutate(Vec3::zero(), ColorGroup(0), 0, 0, Vec3::zero(), roll);
        assert_eq!(gene, ColorGroup(0));
    }
}

#[test]
fn parents_are_paired_in_order_and_an_odd_one_is_left_out() {
    let parents = vec![
        parent_at(0, 0, 0, 0, 0),
        parent_at(1, 1, 10_000_000, 0, 0),
        parent_at(2, 2, 0, 4_000_000, 0),
        parent_at(3, 4, 0, 8_000_000, 0),
        parent_at(4, 5, 1, 1, 1),
    ];
    let draws = vec![calm(300_000), calm(500_000)];
    let cubes = perform_crossover(&parents, &draws, 1_000, 1);
    assert_eq!(
        cubes,
        vec![
            Offspring { gene: ColorGroup(0), position: Vec3::new(7_000_000, 0, 0) },
            Offspring { gene: ColorGroup(4), position: Vec3::new(0, 6_000_000, 0) },
        ]
    );
}

#[test]
fn no_parents_or_one_parent_have_no_offspring() {
    let draws: Vec<OffspringDraw> = Vec::new();
    assert!(perform_crossover(&Vec::new(), &draws, 1_000, 1).is_empty());
    assert!(perform_crossover(&vec![parent_at(0, 3, 0, 0, 0)], &draws, 1_000, 1).is_empty());
}

#[test]
fn spare_draws_are_not_used() {
    let parents = vec![parent_at(0, 0, 2_000_000, 0, 0), parent_at(1, 1, 4_000_000, 0, 0)];
    let draws = vec![calm(500_000), calm(0), calm(1_000_000)];
    let cubes = perform_crossover(&parents, &draws, 1_000, 1);
    assert_eq!(cubes, vec![Offspring { gene: ColorGroup(1), position: Vec3::new(3_000_000, 0, 0) }]);
}

#[test]
fn crossover_and_mutation_compose() {
    let parents = vec![parent_at(0, 0, 2_000_000, 0, 0), parent_at(1, 1, 4_000_000, 0, 0)];
    let draws = vec![OffspringDraw { slice: 250_000, jitter: Vec3::new(-1_000, 1_000, 0), roll: 0 }];
    let cubes = perform_crossover(&parents, &draws, 1_000, 1);
    assert_eq!(
        cubes,
        vec![Offspring { gene: ColorGroup(3), position: Vec3::new(3_499_000, 1_000, 0) }]
    );
}

#[test]
fn the_same_draws_give_the_same_offspring() {
    let parents = vec![parent_at(0, 0, 2_000_000, 5, 9), parent_at(1, 1, 4_000_000, -5, 1)];
    let draws = vec![OffspringDraw { slice: 123_456, jitter: Vec3::new(3, -2, 1), roll: 77 }];
    let first = perform_crossover(&parents, &draws, 1_000, 40);
    let second = perform_crossover(&parents, &draws, 1_000, 40);
    assert_eq!(first, second);
}

#[test]
fn drawn_numbers_lie_in_their_ranges() {
    let mut rng = rand::thread_rng();
    for _ in 0..200 {
        let draw = draw_offspring(&mut rng, 1_000);
        assert!(draw.slice <= 1_000_000);
        assert!(draw.roll < 1_000_000);
        assert!(draw.jitter.is_within(1_000));
    }
    let still = draw_offspring(&mut rng, 0);
    assert_eq!(still.jitter, Vec3::zero());
}

#[test]
fn drawn_numbers_vary() {
    let mut rng = rand::thread_rng();
    let draws = draw_offspring_batch(&mut rng, 64, 100_000);
    assert_eq!(draws.len(), 64);
    // A generator that handed back the lower end of each range would
    // repeat one draw for ever.
    assert!(draws.iter().any(|d| d.slice != 0));
    assert!(draws.iter().any(|d| d.roll != 0));
    assert!(draws.iter().any(|d| d.jitter.x != -100_000));
    assert!(draws.iter().any(|d| d != &draws[0]));
}
