//! The gene space and the fitness score.
//!
//! A gene is one of [`GENE_COUNT`] colour groups. Each group has a fixed
//! colour, and the fitness of a gene is a function of the distance between
//! its colour and the colour of the target gene.

use crate::fixed::SCALE;
use vstd::prelude::*;

verus! {

/// Number of colour groups; valid genes are `0..GENE_COUNT`.
pub const GENE_COUNT: u8 = 6;

/// The gene the population evolves towards: the one coloured pure yellow.
pub const TARGET_GENE: u8 = 3;

/// Fitness of a colour that matches the target, in millionths (`2.0`).
pub const PERFECT_FITNESS: u32 = 2_000_000;

/// Tolerance under which selection takes two colours for the same, in
/// millionths of the normalized intensity (`0.01`).
pub const COLOR_TOLERANCE: u32 = 10_000;

/// Largest squared distance between two colours, `3 * 255 * 255`.
pub const MAX_DISTANCE_SQUARED: u32 = 195_075;

/// The gene of an individual: the ordinal of its colour group.
#[derive(Clone, Copy, Debug, PartialEq, Eq, Structural)]
pub struct ColorGroup(pub u8);

/// A colour with eight bits per channel; a channel value `c` stands for the
/// normalized intensity `c / 255`.
#[derive(Clone, Copy, Debug, PartialEq, Eq, Structural)]
pub struct Rgb {
    pub r: u8,
    pub g: u8,
    pub b: u8,
}

impl ColorGroup {
    /// The gene is one of the declared colour groups.
    pub open spec fn in_domain(self) -> bool {
        self.0 < GENE_COUNT
    }

    /// Tells at run time whether the gene is a declared colour group.
    pub fn is_declared(&self) -> (b: bool)
        ensures
            b == self.in_domain(),
    {
        self.0 < GENE_COUNT
    }
}

/// The colour of each gene: red, green, blue, yellow, and white for the
/// remaining groups.
pub open spec fn gene_color(gene: ColorGroup) -> Rgb {
    if gene.0 == 0 {
        Rgb { r: 255, g: 0, b: 0 }
    } else if gene.0 == 1 {
        Rgb { r: 0, g: 255, b: 0 }
    } else if gene.0 == 2 {
        Rgb { r: 0, g: 0, b: 255 }
    } else if gene.0 == 3 {
        Rgb { r: 255, g: 255, b: 0 }
    } else {
        Rgb { r: 255, g: 255, b: 255 }
    }
}

/// A gene is the target exactly when it equals [`TARGET_GENE`].
pub open spec fn gene_is_target(gene: ColorGroup) -> bool {
    gene.0 == TARGET_GENE
}

/// Squared Euclidean distance between two colours, in units of `1 / 255²`:
/// the normalized distance `d` satisfies `d² = distance_squared / 65025`.
pub open spec fn distance_squared(a: Rgb, b: Rgb) -> int {
    (a.r - b.r) * (a.r - b.r) + (a.g - b.g) * (a.g - b.g) + (a.b - b.b) * (a.b - b.b)
}

/// The normalized distance is below `0.1`, that is `d² < 0.01`.
pub open spec fn is_near_match(dist_sq: int) -> bool {
    100 * dist_sq < 65025
}

/// `score / SCALE <= (1 / (1 + d))³` for the normalized distance
/// `d = sqrt(dist_sq) / 255`, stated over integers.
///
/// The inequality is `score * (255 + √s)³ <= SCALE * 255³`. Expanding the
/// cube gives `(255 + √s)³ = a + b * √s` with `a = 255³ + 3 * 255 * s` and
/// `b = 3 * 255² + s`, so the inequality reads
/// `score * b * √s <= SCALE * 255³ - score * a`. Both sides are compared by
/// their squares once the right-hand side is known to be non-negative.
pub open spec fn score_reached(dist_sq: int, score: int) -> bool {
    let a = 16_581_375 + 765 * dist_sq;
    let b = 195_075 + dist_sq;
    let c = SCALE * 16_581_375;
    &&& score * a <= c
    &&& (score * b) * (score * b) * dist_sq <= (c - score * a) * (c - score * a)
}

/// `score` is `(1 / (1 + d))³` in millionths, rounded down: it is reached and
/// the next larger score is not.
pub open spec fn is_rounded_score(dist_sq: int, score: int) -> bool {
    &&& 0 <= score
    &&& score_reached(dist_sq, score)
    &&& !score_reached(dist_sq, score + 1)
}

/// The fitness of a colour at squared distance `dist_sq` from the target, in
/// millionths: `2.0` below the distance `0.1`, and `(1 / (1 + d))³` rounded
/// down from there on.
pub open spec fn fitness_of_distance(dist_sq: int) -> int {
    if is_near_match(dist_sq) {
        PERFECT_FITNESS as int
    } else {
        choose|score: int| is_rounded_score(dist_sq, score)
    }
}

/// The fitness of a gene: the fitness of its colour against the colour of the
/// target gene.
pub open spec fn gene_fitness(gene: ColorGroup) -> int {
    fitness_of_distance(distance_squared(gene_color(gene), gene_color(ColorGroup(TARGET_GENE))))
}

/// Both colours agree on every channel within `tolerance` (in millionths of
/// the normalized intensity): `|c1 - c2| / 255 < tolerance / SCALE`.
pub open spec fn colors_close(a: Rgb, b: Rgb, tolerance: int) -> bool {
    &&& channel_close(a.r as int, b.r as int, tolerance)
    &&& channel_close(a.g as int, b.g as int, tolerance)
    &&& channel_close(a.b as int, b.b as int, tolerance)
}

/// Two channel values differ by less than `tolerance`:
/// `|a - b| / 255 < tolerance / SCALE`.
pub open spec fn channel_close(a: int, b: int, tolerance: int) -> bool {
    if a >= b {
        (a - b) * SCALE < tolerance * 255
    } else {
        (b - a) * SCALE < tolerance * 255
    }
}

/// The squared distance of each gene's colour from the target colour, in
/// units of `1 / 255²`: zero for the target, three for blue, which differs
/// on every channel, and one for all others.
pub open spec fn gene_distance_squared(gene: ColorGroup) -> int {
    if gene.0 == TARGET_GENE {
        0
    } else if gene.0 == 2 {
        195_075
    } else {
        65_025
    }
}

/// The fitness of each gene, in millionths: `2.0` for the target,
/// `1 / (1 + √3)³ = 0.049038` for blue and `1 / (1 + 1)³ = 0.125` for all
/// others.
pub open spec fn gene_fitness_value(gene: ColorGroup) -> int {
    if gene.0 == TARGET_GENE {
        2_000_000
    } else if gene.0 == 2 {
        49_038
    } else {
        125_000
    }
}

/// A smaller score is reached whenever a larger one is.
pub proof fn lemma_score_reached_downward(dist_sq: int, low: int, high: int)
    requires
        0 <= dist_sq,
        0 <= low <= high,
        score_reached(dist_sq, high),
    ensures
        score_reached(dist_sq, low),
{
    let a = 16_581_375 + 765 * dist_sq;
    let b = 195_075 + dist_sq;
    let c = SCALE * 16_581_375;
    assert(low * a <= high * a) by (nonlinear_arith)
        requires
            low <= high,
            0 <= a,
    ;
    assert(0 <= low * b <= high * b) by (nonlinear_arith)
        requires
            0 <= low <= high,
            0 <= b,
    ;
    let x = low * b;
    let y = high * b;
    assert(x * x * dist_sq <= y * y * dist_sq) by (nonlinear_arith)
        requires
            0 <= x <= y,
            0 <= dist_sq,
    ;
    let u = c - high * a;
    let v = c - low * a;
    assert(u * u <= v * v) by (nonlinear_arith)
        requires
            0 <= u <= v,
    ;
}

/// At most one score is the rounded score of a distance, so
/// [`fitness_of_distance`] is that score.
pub proof fn lemma_rounded_score_unique(dist_sq: int, score: int)
    requires
        0 <= dist_sq,
        !is_near_match(dist_sq),
        is_rounded_score(dist_sq, score),
    ensures
        fitness_of_distance(dist_sq) == score,
{
    let chosen = choose|s: int| is_rounded_score(dist_sq, s);
    if chosen < score {
        lemma_score_reached_downward(dist_sq, chosen + 1, score);
    } else if score < chosen {
        lemma_score_reached_downward(dist_sq, score + 1, chosen);
    }
}

/// Between a score that is reached and a larger one that is not lies a
/// rounded score.
proof fn lemma_rounded_score_between(dist_sq: int, low: int, high: int)
    requires
        0 <= low < high,
        score_reached(dist_sq, low),
        !score_reached(dist_sq, high),
    ensures
        exists|score: int| is_rounded_score(dist_sq, score),
    decreases high - low,
{
    if score_reached(dist_sq, low + 1) {
        lemma_rounded_score_between(dist_sq, low + 1, high);
    } else {
        assert(is_rounded_score(dist_sq, low));
    }
}

/// Every distance has a rounded score, and it lies in `[0, SCALE]`.
pub proof fn lemma_rounded_score_exists(dist_sq: int)
    requires
        0 <= dist_sq,
    ensures
        exists|score: int| is_rounded_score(dist_sq, score),
        !is_near_match(dist_sq) ==> is_rounded_score(dist_sq, fitness_of_distance(dist_sq)),
        !is_near_match(dist_sq) ==> 0 <= fitness_of_distance(dist_sq) <= SCALE,
{
    lemma_score_bounds(dist_sq);
    lemma_rounded_score_between(dist_sq, 0, SCALE + 1);
    if !is_near_match(dist_sq) {
        let score = fitness_of_distance(dist_sq);
        if score > SCALE {
            lemma_score_reached_downward(dist_sq, SCALE + 1, score);
        }
    }
}

/// Away from the target the fitness never grows with the distance.
pub proof fn lemma_fitness_decreases_with_distance(near: int, far: int)
    requires
        0 <= near <= far,
        !is_near_match(near),
    ensures
        fitness_of_distance(far) <= fitness_of_distance(near),
{
    lemma_rounded_score_exists(near);
    lemma_rounded_score_exists(far);
    let f_near = fitness_of_distance(near);
    let f_far = fitness_of_distance(far);
    if f_far > f_near {
        lemma_score_reached_downward(far, f_near + 1, f_far);
        let score = f_near + 1;
        let a_near = 16_581_375 + 765 * near;
        let a_far = 16_581_375 + 765 * far;
        let b_near = 195_075 + near;
        let b_far = 195_075 + far;
        let c = SCALE * 16_581_375;
        assert(score * a_near <= score * a_far) by (nonlinear_arith)
            requires
                0 <= score,
                a_near <= a_far,
        ;
        assert(0 <= score * b_near <= score * b_far) by (nonlinear_arith)
            requires
                0 <= score,
                0 <= b_near <= b_far,
        ;
        let x = score * b_near;
        let y = score * b_far;
        assert(x * x * near <= y * y * far) by (nonlinear_arith)
            requires
                0 <= x <= y,
                0 <= near <= far,
        ;
        let u = c - score * a_far;
        let v = c - score * a_near;
        assert(u * u <= v * v) by (nonlinear_arith)
            requires
                0 <= u <= v,
        ;
        assert(score_reached(near, score));
    }
}

/// Score zero is always reached, and no score above `1.0` ever is.
proof fn lemma_score_bounds(dist_sq: int)
    requires
        0 <= dist_sq,
    ensures
        score_reached(dist_sq, 0),
        !score_reached(dist_sq, SCALE + 1),
{
    let a = 16_581_375 + 765 * dist_sq;
    let b = 195_075 + dist_sq;
    let c = SCALE * 16_581_375;
    assert(0 * a == 0 && (0 * b) * (0 * b) * dist_sq == 0) by (nonlinear_arith);
    assert(0 <= c * c) by (nonlinear_arith);
    assert((SCALE + 1) * a > c) by (nonlinear_arith)
        requires
            a >= 16_581_375,
            c == SCALE * 16_581_375,
    ;
}

/// The colour of each declared gene lies at the distance that
/// [`gene_distance_squared`] gives, and is near the target colour for the
/// target alone.
pub proof fn lemma_gene_distance(gene: ColorGroup)
    requires
        gene.in_domain(),
    ensures
        distance_squared(gene_color(gene), gene_color(ColorGroup(TARGET_GENE)))
            == gene_distance_squared(gene),
        is_near_match(distance_squared(gene_color(gene), gene_color(ColorGroup(TARGET_GENE))))
            <==> gene_is_target(gene),
{
    assert(255 * 255 == 65_025) by (nonlinear_arith);
    assert((0 - 255) * (0 - 255) == 65_025) by (nonlinear_arith);
    assert(0 * 0 == 0) by (nonlinear_arith);
}

/// The fitness of each declared gene is the one that [`gene_fitness_value`]
/// gives: none is negative, and the target gene has the fitness `2.0`.
pub proof fn lemma_gene_fitness_values(gene: ColorGroup)
    requires
        gene.in_domain(),
    ensures
        gene_fitness(gene) == gene_fitness_value(gene),
        0 <= gene_fitness(gene),
        gene_fitness(ColorGroup(TARGET_GENE)) == PERFECT_FITNESS,
{
    lemma_gene_distance(gene);
    lemma_gene_distance(ColorGroup(TARGET_GENE));
    assert(is_rounded_score(65_025, 125_000)) by (nonlinear_arith);
    lemma_rounded_score_unique(65_025, 125_000);
    assert(is_rounded_score(195_075, 49_038)) by (nonlinear_arith);
    lemma_rounded_score_unique(195_075, 49_038);
}

/// Among the declared genes only the target has the target's colour, under
/// any tolerance above zero and up to one.
pub proof fn lemma_target_color_is_unique(gene: ColorGroup, tolerance: int)
    requires
        gene.in_domain(),
        0 < tolerance <= SCALE,
    ensures
        colors_close(gene_color(gene), gene_color(ColorGroup(TARGET_GENE)), tolerance)
            <==> gene_is_target(gene),
{
}

/// The colour of a gene.
pub fn color_of(gene: ColorGroup) -> (color: Rgb)
    requires
        gene.in_domain(),
    ensures
        color == gene_color(gene),
{
    if gene.0 == 0 {
        Rgb { r: 255, g: 0, b: 0 }
    } else if gene.0 == 1 {
        Rgb { r: 0, g: 255, b: 0 }
    } else if gene.0 == 2 {
        Rgb { r: 0, g: 0, b: 255 }
    } else if gene.0 == 3 {
        Rgb { r: 255, g: 255, b: 0 }
    } else {
        Rgb { r: 255, g: 255, b: 255 }
    }
}

/// Whether a gene is the target gene.
pub fn is_target(gene: ColorGroup) -> (b: bool)
    ensures
        b == gene_is_target(gene),
{
    gene.0 == TARGET_GENE
}

/// The distance between two channel values.
fn channel_gap(a: u8, b: u8) -> (gap: u32)
    ensures
        a >= b ==> gap == a - b,
        a < b ==> gap == b - a,
        gap <= 255,
{
    if a >= b {
        (a - b) as u32
    } else {
        (b - a) as u32
    }
}

/// Compares two colours channel by channel with a tolerance given in
/// millionths of the normalized intensity.
pub fn colors_are_equal(color1: Rgb, color2: Rgb, tolerance: u32) -> (equal: bool)
    ensures
        equal == colors_close(color1, color2, tolerance as int),
{
    let limit: u64 = tolerance as u64 * 255;
    let scale: u64 = SCALE as u64;
    channel_gap(color1.r, color2.r) as u64 * scale < limit && channel_gap(color1.g, color2.g) as u64
        * scale < limit && channel_gap(color1.b, color2.b) as u64 * scale < limit
}

/// Computes [`distance_squared`].
fn squared_distance(a: Rgb, b: Rgb) -> (dist_sq: u32)
    ensures
        dist_sq == distance_squared(a, b),
        dist_sq <= MAX_DISTANCE_SQUARED,
{
    let dr: u32 = channel_gap(a.r, b.r);
    let dg: u32 = channel_gap(a.g, b.g);
    let db: u32 = channel_gap(a.b, b.b);
    assert(dr * dr <= 65025 && dr * dr == (a.r - b.r) * (a.r - b.r)) by (nonlinear_arith)
        requires
            dr <= 255,
            dr == a.r - b.r || dr == b.r - a.r,
    ;
    assert(dg * dg <= 65025 && dg * dg == (a.g - b.g) * (a.g - b.g)) by (nonlinear_arith)
        requires
            dg <= 255,
            dg == a.g - b.g || dg == b.g - a.g,
    ;
    assert(db * db <= 65025 && db * db == (a.b - b.b) * (a.b - b.b)) by (nonlinear_arith)
        requires
            db <= 255,
            db == a.b - b.b || db == b.b - a.b,
    ;
    dr * dr + dg * dg + db * db
}

/// Decides [`score_reached`] in 128-bit arithmetic.
fn reaches_score(dist_sq: u32, score: u32) -> (reached: bool)
    requires
        dist_sq <= MAX_DISTANCE_SQUARED,
        score <= SCALE + 1,
    ensures
        reached == score_reached(dist_sq as int, score as int),
{
    let s: u128 = dist_sq as u128;
    let f: u128 = score as u128;
    let a: u128 = 16_581_375 + 765 * s;
    let b: u128 = 195_075 + s;
    let c: u128 = 16_581_375_000_000;
    assert(f * a <= 1_000_001 * 165_813_750) by (nonlinear_arith)
        requires
            f <= 1_000_001,
            a <= 165_813_750,
    ;
    let fa: u128 = f * a;
    if fa > c {
        return false;
    }
    assert(f * b <= 1_000_001 * 390_150) by (nonlinear_arith)
        requires
            f <= 1_000_001,
            b <= 390_150,
    ;
    let fb: u128 = f * b;
    assert(fb * fb <= 390_150_390_150 * 390_150_390_150) by (nonlinear_arith)
        requires
            fb <= 390_150_390_150,
    ;
    let fb2: u128 = fb * fb;
    assert(fb2 * s <= 390_150_390_150 * 390_150_390_150 * 195_075) by (nonlinear_arith)
        requires
            fb2 <= 390_150_390_150 * 390_150_390_150,
            s <= 195_075,
    ;
    let left: u128 = fb2 * s;
    let gap: u128 = c - fa;
    assert(gap * gap <= 16_581_375_000_000 * 16_581_375_000_000) by (nonlinear_arith)
        requires
            gap <= 16_581_375_000_000,
    ;
    left <= gap * gap
}

/// Whether the colour of a gene is the target colour within
/// [`COLOR_TOLERANCE`]. Among the declared genes that is the target alone.
pub fn has_target_color(gene: ColorGroup) -> (b: bool)
    requires
        gene.in_domain(),
    ensures
        b == gene_is_target(gene),
{
    proof {
        lemma_target_color_is_unique(gene, COLOR_TOLERANCE as int);
    }
    colors_are_equal(color_of(gene), color_of(ColorGroup(TARGET_GENE)), COLOR_TOLERANCE)
}

/// The fitness of `color` against `target`, in millionths: `2.0` when the
/// colours are closer than `0.1`, else `(1 / (1 + d))³` rounded down.
pub fn calculate_fitness_score(color: Rgb, target: Rgb) -> (score: u32)
    ensures
        score == fitness_of_distance(distance_squared(color, target)),
        score <= PERFECT_FITNESS,
        is_near_match(distance_squared(color, target)) <==> score == PERFECT_FITNESS,
{
    let dist_sq: u32 = squared_distance(color, target);
    if 100 * dist_sq < 65025 {
        return PERFECT_FITNESS;
    }
    let mut low: u32 = 0;
    let mut high: u32 = SCALE as u32 + 1;
    proof {
        lemma_score_bounds(dist_sq as int);
    }
    while high - low > 1
        invariant
            dist_sq <= MAX_DISTANCE_SQUARED,
            low < high <= SCALE + 1,
            score_reached(dist_sq as int, low as int),
            !score_reached(dist_sq as int, high as int),
        decreases high - low,
    {
        let middle: u32 = low + (high - low) / 2;
        if reaches_score(dist_sq, middle) {
            low = middle;
        } else {
            high = middle;
        }
    }
    proof {
        lemma_rounded_score_unique(dist_sq as int, low as int);
    }
    low
}

/// The fitness of a gene, in millionths.
pub fn fitness(gene: ColorGroup) -> (score: u32)
    requires
        gene.in_domain(),
    ensures
        score == gene_fitness(gene),
        score <= PERFECT_FITNESS,
        gene_is_target(gene) <==> score == PERFECT_FITNESS,
{
    proof {
        lemma_gene_distance(gene);
    }
    calculate_fitness_score(color_of(gene), color_of(ColorGroup(TARGET_GENE)))
}

} // verus!
