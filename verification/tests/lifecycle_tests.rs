use evolution_sim::fixed::Vec3;
use evolution_sim::gene::ColorGroup;
use evolution_sim::lifecycle::{
    draw_family, draw_gene, process_generation_system, spawn_child_cubes, FamilySeed,
    GenerationNumber, GenerationReport, SeedBounds, Settings, SimulationState, OFFSPRING_LIFETIME,
    WORLD_BOUND, WORLD_LIMIT,
};
use evolution_sim::mover::{Lifetime, Mover};
use evolution_sim::population::{Individual, Population, Role};
use evolution_sim::reproduction::{Offspring, OffspringDraw};

fn seed(x: i64, gene: u8, child_genes: &[u8]) -> FamilySeed {
    FamilySeed {
        position: Vec3::new(x, 0, 0),
        velocity: Vec3::zero(),
        gene: ColorGroup(gene),
        child_genes: child_genes.iter().map(|g| ColorGroup(*g)).collect(),
    }
}

fn four_families() -> SimulationState {
    let mut state = SimulationState::new(Settings::default());
    state.spawn_family(&seed(2_000_000, 3, &[0, 3])); // ids 0, 1, 2
    state.spawn_family(&seed(4_000_000, 0, &[3])); // ids 3, 4
    state.spawn_family(&seed(6_000_000, 1, &[0])); // ids 5, 6
    state.spawn_family(&seed(8_000_000, 4, &[2, 3])); // ids 7, 8, 9
    state
}

fn live_ids_of(state: &SimulationState) -> Vec<usize> {
    state.snapshot().iter().map(|m| m.id).collect()
}

#[test]
fn the_generation_counter_starts_at_one() {
    assert_eq!(GenerationNumber::default().current_gen, 1);
    let state = SimulationState::new(Settings::default());
    assert_eq!(state.generation().current_gen, 1);
    assert!(!state.running);
    assert!(state.snapshot().is_empty());
}

#[test]
fn the_default_settings() {
    let settings = Settings::default();
    assert_eq!(settings.bound, 9_000_000);
    assert_eq!(settings.mutation_rate, 1_000);
    assert_eq!(settings.offspring_lifetime, 3_000_000);
    assert_eq!(settings.policy.child_threshold, 900_000);
    assert_eq!(settings.policy.family_threshold, 200_000);
    assert!(settings.is_valid());
    assert_eq!(WORLD_BOUND, 9_000_000);
    assert_eq!(OFFSPRING_LIFETIME, 3_000_000);
    assert_eq!(SimulationState::new(settings).settings(), settings);
}

#[test]
fn invalid_settings_are_told_apart() {
    let mut settings = Settings::default();
    settings.bound = -1;
    assert!(!settings.is_valid());
    settings.bound = WORLD_LIMIT;
    assert!(settings.is_valid());
    settings.mutation_rate = 1_000_001;
    assert!(!settings.is_valid());
    settings.mutation_rate = 1_000_000;
    assert!(settings.is_valid());
}

#[test]
fn the_default_seeding_bounds() {
    let bounds = SeedBounds::default();
    assert_eq!(bounds.low, Vec3::new(-3_000_000, -5_000_000, -3_000_000));
    assert_eq!(bounds.high, Vec3::new(7_000_000, 7_000_000, 7_000_000));
    assert_eq!(bounds.max_speed, 100_000);
    assert!(bounds.is_valid());
    let empty = SeedBounds { low: Vec3::new(1, 0, 0), high: Vec3::zero(), max_speed: 0 };
    assert!(!empty.is_valid());
    let backwards = SeedBounds { low: Vec3::zero(), high: Vec3::zero(), max_speed: -1 };
    assert!(!backwards.is_valid());
}

#[test]
fn a_family_is_a_root_and_its_children_in_a_row() {
    let mut state = SimulationState::new(Settings::default());
    let family = FamilySeed {
        position: Vec3::new(1_000_000, 2_000_000, 3_000_000),
        velocity: Vec3::new(10, -20, 30),
        gene: ColorGroup(4),
        child_genes: vec![ColorGroup(0), ColorGroup(5), ColorGroup(3)],
    };
    assert!(family.is_valid());
    let root = state.spawn_family(&family);
    assert_eq!(root, 0);
    let members = state.snapshot();
    assert_eq!(members.len(), 4);
    assert_eq!(
        members[0],
        Individual {
            id: 0,
            position: Vec3::new(1_000_000, 2_000_000, 3_000_000),
            mover: Some(Mover { velocity: Vec3::new(10, -20, 30) }),
            gene: ColorGroup(4),
            role: Role::Root,
            lifetime: None,
        }
    );
    for k in 0..3usize {
        assert_eq!(
            members[k + 1],
            Individual {
                id: k + 1,
                position: Vec3::new((k as i64 + 1) * 1_000_000, 0, 0),
                mover: None,
                gene: family.child_genes[k],
                role: Role::Child { parent: 0 },
                lifetime: None,
            }
        );
    }
    assert_eq!(state.population().children_of(0), vec![1, 2, 3]);
}

#[test]
fn a_family_with_an_undeclared_gene_is_told_apart() {
    assert!(!seed(0, 6, &[]).is_valid());
    assert!(!seed(0, 0, &[1, 6]).is_valid());
    assert!(!seed(WORLD_LIMIT + 1, 0, &[]).is_valid());
    assert!(seed(WORLD_LIMIT, 0, &[]).is_valid());
    let mut stuck = seed(0, 0, &[]);
    stuck.velocity = Vec3::new(i64::MIN, 0, 0);
    assert!(!stuck.is_valid());
}

#[test]
fn the_first_generation_has_the_asked_shape() {
    let mut state = SimulationState::new(Settings::default());
    let bounds = SeedBounds::default();
    state.spawn_first_gen(20, 5, &bounds);
    let members = state.snapshot();
    assert_eq!(members.len(), 20 * 6);
    assert_eq!(state.generation().current_gen, 1);
    for (slot, member) in members.iter().enumerate() {
        assert_eq!(member.id, slot);
        assert!(member.gene.is_declared());
        assert_eq!(member.lifetime, None);
        let root = slot - slot % 6;
        if slot % 6 == 0 {
            assert_eq!(member.role, Role::Root);
            assert!(bounds.low.x <= member.position.x && member.position.x <= bounds.high.x);
            assert!(bounds.low.y <= member.position.y && member.position.y <= bounds.high.y);
            assert!(bounds.low.z <= member.position.z && member.position.z <= bounds.high.z);
            assert!(member.mover.unwrap().velocity.is_within(bounds.max_speed));
        } else {
            assert_eq!(member.role, Role::Child { parent: root });
            assert_eq!(member.position, Vec3::new((slot % 6) as i64 * 1_000_000, 0, 0));
            assert_eq!(member.mover, None);
        }
    }
    assert_eq!(state.population().determine_parents().len(), 20);
}

#[test]
fn the_first_generation_is_not_all_alike() {
    let mut state = SimulationState::new(Settings::default());
    let bounds = SeedBounds::default();
    state.spawn_first_gen(50, 5, &bounds);
    let roots = state.population().determine_parents();
    // A generator that handed back the lower end of each range would put
    // every root into one corner, at one velocity, with gene zero.
    assert!(roots.iter().any(|r| r.position != bounds.low));
    assert!(roots.iter().any(|r| r.position != roots[0].position));
    assert!(roots.iter().any(|r| r.mover.unwrap().velocity != Vec3::new(-100_000, -100_000, -100_000)));
    assert!(state.snapshot().iter().any(|m| m.gene != ColorGroup(0)));
}

#[test]
fn seeding_nothing_changes_nothing() {
    let mut state = four_families();
    let before = state.snapshot();
    state.spawn_first_gen(0, 5, &SeedBounds::default());
    assert_eq!(state.snapshot(), before);
    state.spawn_first_gen(3, 0, &SeedBounds::default());
    assert_eq!(state.snapshot().len(), before.len() + 3);
}

#[test]
fn seeding_in_a_point_puts_every_root_there() {
    let mut state = SimulationState::new(Settings::default());
    let point = Vec3::new(1, 2, 3);
    let bounds = SeedBounds { low: point, high: point, max_speed: 0 };
    state.spawn_first_gen(4, 1, &bounds);
    for root in state.population().determine_parents() {
        assert_eq!(root.position, point);
        assert_eq!(root.mover, Some(Mover { velocity: Vec3::zero() }));
    }
}

#[test]
fn drawn_families_respect_the_bounds() {
    let mut rng = rand::thread_rng();
    let bounds = SeedBounds::default();
    for _ in 0..50 {
        let family = draw_family(&mut rng, &bounds, 5);
        assert!(family.is_valid());
        assert_eq!(family.child_genes.len(), 5);
        assert!(family.velocity.is_within(100_000));
        assert!(draw_gene(&mut rng).is_declared());
    }
}

#[test]
fn movement_moves_the_movers_only() {
    let mut state = SimulationState::new(Settings::default());
    let mut family = seed(8_000_000, 0, &[1, 2]);
    family.velocity = Vec3::new(2_000_000, -1_000_000, 0);
    state.spawn_family(&family);
    state.move_cubes(250_000);
    let members = state.snapshot();
    assert_eq!(members[0].position, Vec3::new(8_500_000, -250_000, 0));
    assert_eq!(members[1].position, Vec3::new(1_000_000, 0, 0));
    assert_eq!(members[2].position, Vec3::new(2_000_000, 0, 0));
    state.move_cubes(500_000);
    let members = state.snapshot();
    assert_eq!(members[0].position, Vec3::new(9_000_000, -750_000, 0));
    assert_eq!(members[0].mover, Some(Mover { velocity: Vec3::new(-2_000_000, -1_000_000, 0) }));
    state.move_cubes(500_000);
    assert_eq!(state.snapshot()[0].position, Vec3::new(8_000_000, -1_250_000, 0));
}

#[test]
fn every_mover_stays_between_the_walls() {
    let mut state = SimulationState::new(Settings::default());
    state.spawn_first_gen(30, 2, &SeedBounds::default());
    for _ in 0..200 {
        state.tick(1_700_000);
        for member in state.snapshot() {
            if member.mover.is_some() {
                assert!(member.position.is_within(9_000_000));
            }
        }
    }
    assert_eq!(state.snapshot().len(), 90);
}

#[test]
fn offspring_become_roots_at_rest_with_a_lifetime() {
    let mut population = Population::new();
    population.spawn_root(Vec3::zero(), None, ColorGroup(0), None);
    let cubes = vec![
        Offspring { gene: ColorGroup(3), position: Vec3::new(1, 2, 3) },
        Offspring { gene: ColorGroup(1), position: Vec3::new(-1, -2, -3) },
    ];
    spawn_child_cubes(&mut population, &cubes, 3_000_000);
    let members = population.snapshot();
    assert_eq!(members.len(), 3);
    assert_eq!(
        members[1],
        Individual {
            id: 1,
            position: Vec3::new(1, 2, 3),
            mover: Some(Mover { velocity: Vec3::zero() }),
            gene: ColorGroup(3),
            role: Role::Root,
            lifetime: Some(Lifetime { remaining: 3_000_000 }),
        }
    );
    assert_eq!(members[2].id, 2);
    assert_eq!(members[2].gene, ColorGroup(1));
    assert_eq!(members[2].role, Role::Root);
    assert!(population.children_of(1).is_empty());
}

#[test]
fn one_generation_cycle_step_by_step() {
    let mut state = four_families();
    let draws = vec![OffspringDraw {
        slice: 500_000,
        jitter: Vec3::new(1_000, 0, -1_000),
        roll: 999_999,
    }];
    let report = state.process_generation(&draws);
    assert_eq!(report, GenerationReport { removed_count: 4, spawned_count: 1, new_generation: 2 });
    assert_eq!(state.generation().current_gen, 2);
    assert_eq!(live_ids_of(&state), vec![0, 2, 3, 4, 7, 9, 10]);
    let newborn = state.population().get(10).unwrap();
    assert_eq!(
        newborn,
        Individual {
            id: 10,
            position: Vec3::new(3_001_000, 0, -1_000),
            mover: Some(Mover { velocity: Vec3::zero() }),
            gene: ColorGroup(3),
            role: Role::Root,
            lifetime: Some(Lifetime { remaining: 3_000_000 }),
        }
    );
    assert_eq!(state.population().children_of(0), vec![2]);
    assert_eq!(state.population().children_of(7), vec![9]);
}

#[test]
fn the_removed_never_reproduce() {
    let mut state = SimulationState::new(Settings::default());
    state.spawn_family(&seed(0, 0, &[])); // fails the family rule
    state.spawn_family(&seed(2_000_000, 3, &[]));
    state.spawn_family(&seed(4_000_000, 1, &[])); // fails the family rule
    state.spawn_family(&seed(6_000_000, 3, &[]));
    let draws = vec![OffspringDraw { slice: 0, jitter: Vec3::zero(), roll: 999_999 }];
    let report = state.process_generation(&draws);
    // The two survivors form the only pair: slice zero puts the child on
    // the second of them.
    assert_eq!(report, GenerationReport { removed_count: 2, spawned_count: 1, new_generation: 2 });
    assert_eq!(state.population().get(4).unwrap().position, Vec3::new(6_000_000, 0, 0));
    assert_eq!(live_ids_of(&state), vec![1, 3, 4]);
}

#[test]
fn a_cycle_without_survivors_spawns_nothing_and_counts_on() {
    let mut empty = SimulationState::new(Settings::default());
    let report = empty.process_generation(&Vec::new());
    assert_eq!(report, GenerationReport { removed_count: 0, spawned_count: 0, new_generation: 2 });
    assert_eq!(empty.generation().current_gen, 2);
    assert!(empty.snapshot().is_empty());

    let mut doomed = SimulationState::new(Settings::default());
    doomed.spawn_family(&seed(0, 0, &[1, 2]));
    doomed.spawn_family(&seed(0, 5, &[4]));
    let report = doomed.process_generation(&Vec::new());
    assert_eq!(report, GenerationReport { removed_count: 5, spawned_count: 0, new_generation: 2 });
    assert!(doomed.snapshot().is_empty());
    let report = doomed.process_generation(&Vec::new());
    assert_eq!(report, GenerationReport { removed_count: 0, spawned_count: 0, new_generation: 3 });
}

#[test]
fn a_single_survivor_has_no_partner() {
    let mut state = SimulationState::new(Settings::default());
    state.spawn_family(&seed(0, 3, &[]));
    let report = state.process_generation(&Vec::new());
    assert_eq!(report, GenerationReport { removed_count: 0, spawned_count: 0, new_generation: 2 });
    assert_eq!(live_ids_of(&state), vec![0]);
}

#[test]
fn expiry_does_not_ask_for_fitness() {
    let mut state = four_families();
    let draws = vec![OffspringDraw { slice: 500_000, jitter: Vec3::zero(), roll: 0 }];
    state.process_generation(&draws);
    // The newborn carries the target gene: selection would keep it for ever.
    assert_eq!(state.population().get(10).unwrap().gene, ColorGroup(3));
    state.tick(1_000_000);
    assert_eq!(state.population().get(10).unwrap().lifetime, Some(Lifetime { remaining: 2_000_000 }));
    state.tick(1_999_999);
    assert_eq!(state.population().get(10).unwrap().lifetime, Some(Lifetime { remaining: 1 }));
    assert_eq!(state.despawn_cubes(0), 0);
    state.tick(1);
    assert_eq!(state.population().get(10), None);
    assert_eq!(live_ids_of(&state), vec![0, 2, 3, 4, 7, 9]);
}

#[test]
fn an_expiring_root_takes_its_children_along() {
    let mut population = Population::new();
    let root = population.spawn_root(Vec3::zero(), None, ColorGroup(3), Some(Lifetime::new(5)));
    population.spawn_child(root, Vec3::zero(), ColorGroup(3));
    population.spawn_child(root, Vec3::zero(), ColorGroup(3));
    let other = population.spawn_root(Vec3::zero(), None, ColorGroup(0), Some(Lifetime::new(6)));
    let marks: Vec<bool> = population
        .snapshot()
        .iter()
        .map(|m| match m.lifetime {
            Some(mut lifetime) => lifetime.tick(5),
            None => false,
        })
        .collect();
    assert_eq!(marks, vec![true, false, false, false]);
    assert_eq!(population.cull(&marks), 3);
    let ids: Vec<usize> = population.snapshot().iter().map(|m| m.id).collect();
    assert_eq!(ids, vec![other]);
}

#[test]
fn a_newborn_outside_the_walls_is_brought_back_by_the_next_tick() {
    let mut state = SimulationState::new(Settings::default());
    state.spawn_family(&seed(9_000_000, 3, &[]));
    state.spawn_family(&seed(9_000_000, 3, &[]));
    let draws = vec![OffspringDraw { slice: 1, jitter: Vec3::new(1_000, 0, 0), roll: 5 }];
    state.process_generation(&draws);
    assert_eq!(state.population().get(2).unwrap().position, Vec3::new(9_001_000, 0, 0));
    state.tick(10);
    assert_eq!(state.population().get(2).unwrap().position, Vec3::new(9_000_000, 0, 0));
}

#[test]
fn a_cycle_with_drawn_numbers_keeps_its_books() {
    let mut state = SimulationState::new(Settings::default());
    state.spawn_first_gen(40, 5, &SeedBounds::default());
    for round in 0..5u32 {
        let before = state.snapshot().len();
        let report = process_generation_system(&mut state);
        let after = state.snapshot();
        assert_eq!(report.new_generation, round + 2);
        assert_eq!(state.generation().current_gen, round + 2);
        assert_eq!(after.len(), before - report.removed_count + report.spawned_count);
        let roots = state.population().determine_parents();
        let newborn = roots.iter().filter(|r| r.lifetime == Some(Lifetime { remaining: 3_000_000 })).count();
        assert_eq!(newborn, report.spawned_count);
        assert_eq!(report.spawned_count, (roots.len() - newborn) / 2);
        for member in &after {
            assert!(member.gene.is_declared());
            if let Role::Child { parent } = member.role {
                assert_eq!(state.population().get(parent).unwrap().role, Role::Root);
                assert_eq!(member.gene, ColorGroup(3));
            }
        }
        state.tick(3_000_000);
    }
}

#[test]
fn the_host_switch_gates_the_cycle() {
    let mut state = four_families();
    let before = state.snapshot();
    assert_eq!(state.simulation_system(), None);
    assert_eq!(state.snapshot(), before);
    assert_eq!(state.generation().current_gen, 1);
    state.running = true;
    let report = state.simulation_system().unwrap();
    assert_eq!(report.new_generation, 2);
    assert_eq!(report.removed_count, 4);
    assert_eq!(report.spawned_count, 1);
    assert_eq!(state.generation().current_gen, 2);
    state.running = false;
    assert_eq!(state.simulation_system(), None);
    assert_eq!(state.generation().current_gen, 2);
}

#[test]
fn the_chance_of_the_target_gene_comes_from_the_generation() {
    // In generation 1 the chance is 0.0015: a roll of 1499 forces the
    // target gene and a roll of 1500 does not.
    let pair = |roll: u32| {
        let mut state = SimulationState::new(Settings::default());
        state.spawn_family(&seed(0, 0, &[3]));
        state.spawn_family(&seed(0, 1, &[3]));
        let draws = vec![OffspringDraw { slice: 0, jitter: Vec3::zero(), roll }];
        state.process_generation(&draws);
        state.population().get(4).unwrap().gene
    };
    assert_eq!(pair(1_499), ColorGroup(3));
    // Otherwise a slice below one half hands down the gene of the first parent.
    assert_eq!(pair(1_500), ColorGroup(0));
}
