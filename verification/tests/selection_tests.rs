use evolution_sim::fixed::Vec3;
use evolution_sim::gene::ColorGroup;
use evolution_sim::population::Population;
use evolution_sim::selection::{
    evaluate_fitness, mark_for_removal, SelectionPolicy, CHILD_SURVIVAL_THRESHOLD,
    FAMILY_SURVIVAL_THRESHOLD,
};

fn seed_family(population: &mut Population, root_gene: u8, child_genes: &[u8]) -> usize {
    let root = population.spawn_root(Vec3::zero(), None, ColorGroup(root_gene), None);
    for gene in child_genes {
        population.spawn_child(root, Vec3::zero(), ColorGroup(*gene));
    }
    root
}

fn ids_of(population: &Population) -> Vec<usize> {
    population.snapshot().iter().map(|m| m.id).collect()
}

#[test]
fn the_default_policy_holds_the_two_thresholds() {
    let policy = SelectionPolicy::default();
    assert_eq!(policy.child_threshold, 900_000);
    assert_eq!(policy.family_threshold, 200_000);
    assert_eq!(CHILD_SURVIVAL_THRESHOLD, 900_000);
    assert_eq!(FAMILY_SURVIVAL_THRESHOLD, 200_000);
}

#[test]
fn a_weak_child_is_removed_whatever_its_parent_is() {
    for root_gene in 0..6u8 {
        let mut population = Population::new();
        let root = seed_family(&mut population, root_gene, &[0, 3]);
        evaluate_fitness(&mut population, &SelectionPolicy::default());
        // The red child goes; the yellow child stays and keeps its parent.
        assert_eq!(ids_of(&population), vec![root, 2]);
    }
}

#[test]
fn a_weak_root_without_a_target_child_takes_its_family_along() {
    let mut population = Population::new();
    seed_family(&mut population, 0, &[1, 2, 4]);
    let removed = evaluate_fitness(&mut population, &SelectionPolicy::default());
    assert_eq!(removed, 4);
    assert!(ids_of(&population).is_empty());
}

#[test]
fn one_target_child_saves_its_root() {
    let mut population = Population::new();
    let root = seed_family(&mut population, 2, &[1, 3, 0]);
    let removed = evaluate_fitness(&mut population, &SelectionPolicy::default());
    assert_eq!(removed, 2);
    assert_eq!(ids_of(&population), vec![root, 2]);
    assert_eq!(population.children_of(root), vec![2]);
}

#[test]
fn a_target_root_stays_and_loses_its_weak_children() {
    let mut population = Population::new();
    let root = seed_family(&mut population, 3, &[0, 1, 2, 4, 5]);
    let removed = evaluate_fitness(&mut population, &SelectionPolicy::default());
    assert_eq!(removed, 5);
    assert_eq!(ids_of(&population), vec![root]);
}

#[test]
fn an_isolated_root_is_judged_by_its_own_gene() {
    let mut population = Population::new();
    seed_family(&mut population, 0, &[]);
    let target = seed_family(&mut population, 3, &[]);
    seed_family(&mut population, 5, &[]);
    evaluate_fitness(&mut population, &SelectionPolicy::default());
    assert_eq!(ids_of(&population), vec![target]);
}

#[test]
fn the_thresholds_are_strict() {
    // Red has fitness 0.125: it fails a threshold of 0.125001 and meets 0.125.
    let mut strict = Population::new();
    seed_family(&mut strict, 0, &[0]);
    let policy = SelectionPolicy { child_threshold: 125_000, family_threshold: 125_000 };
    assert_eq!(evaluate_fitness(&mut strict, &policy), 0);
    let mut lax = Population::new();
    seed_family(&mut lax, 0, &[0]);
    let policy = SelectionPolicy { child_threshold: 125_001, family_threshold: 125_000 };
    assert_eq!(evaluate_fitness(&mut lax, &policy), 1);
    assert_eq!(ids_of(&lax), vec![0]);
    let mut gone = Population::new();
    seed_family(&mut gone, 0, &[0]);
    let policy = SelectionPolicy { child_threshold: 0, family_threshold: 125_001 };
    assert_eq!(evaluate_fitness(&mut gone, &policy), 2);
}

#[test]
fn decisions_are_taken_before_any_removal() {
    let mut population = Population::new();
    // The decision on the root sees the yellow child although the red one
    // before it is removed, and the other family is judged on its own.
    seed_family(&mut population, 0, &[0, 3]);
    seed_family(&mut population, 1, &[0, 0]);
    let marks = mark_for_removal(&population, &SelectionPolicy::default());
    assert_eq!(marks, vec![false, true, false, true, true, true]);
    let removed = evaluate_fitness(&mut population, &SelectionPolicy::default());
    assert_eq!(removed, 4);
    assert_eq!(ids_of(&population), vec![0, 2]);
}

#[test]
fn selection_on_an_empty_population_removes_nothing() {
    let mut population = Population::new();
    assert_eq!(evaluate_fitness(&mut population, &SelectionPolicy::default()), 0);
    assert!(mark_for_removal(&population, &SelectionPolicy::default()).is_empty());
}

#[test]
fn selection_twice_is_selection_once() {
    let mut population = Population::new();
    seed_family(&mut population, 0, &[0, 3]);
    seed_family(&mut population, 3, &[1, 2]);
    seed_family(&mut population, 4, &[]);
    evaluate_fitness(&mut population, &SelectionPolicy::default());
    let once = population.snapshot();
    assert_eq!(evaluate_fitness(&mut population, &SelectionPolicy::default()), 0);
    assert_eq!(population.snapshot(), once);
}
