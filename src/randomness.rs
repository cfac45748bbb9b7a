//! The randomness of the search: a seeded generator, and for every (bed,
//! week) the varieties that may be planted there.

use vstd::prelude::*;
use ::rand::distributions::{Distribution, WeightedIndex};
use ::rand::rngs::StdRng;
use ::rand::{Rng, SeedableRng};
use crate::params::{Params, requirements_met};
use crate::season::{SEASON_LENGTH, POPULATION_SIZE};

verus! {

#[verifier::external_type_specification]
#[verifier::external_body]
pub struct ExStdRng(StdRng);

/// Relies on rand's `StdRng::seed_from_u64`: a generator seeded from `seed`.
#[verifier::external_body]
fn seeded_rng(seed: u64) -> StdRng {
    StdRng::seed_from_u64(seed)
}

/// Relies on rand's `Rng::gen::<bool>`: a fair coin.
#[verifier::external_body]
fn fair_coin(rng: &mut StdRng) -> bool {
    rng.gen::<bool>()
}

/// Relies on rand's `Rng::gen_range`: a value of `0..n`, uniformly; it panics
/// on an empty range.
#[verifier::external_body]
fn uniform_below(rng: &mut StdRng, n: usize) -> (r: usize)
    requires
        n > 0,
    ensures
        r < n,
{
    rng.gen_range(0..n)
}

/// Relies on rand's `WeightedIndex`: an index of `weights`, drawn with
/// probability proportional to its weight. Its constructor fails on no
/// weights or a zero total, and panics where the total overflows.
#[verifier::external_body]
fn weighted_index(rng: &mut StdRng, weights: &Vec<usize>) -> (r: usize)
    requires
        0 < weights@.len() <= POPULATION_SIZE,
        forall|i: int| 0 <= i < weights@.len() ==> 1 <= #[trigger] weights@[i] <= POPULATION_SIZE,
    ensures
        r < weights@.len(),
{
    WeightedIndex::new(weights).unwrap().sample(rng)
}

/// May variety `v` be planted in bed `bed` at week `week`.
pub open spec fn plantable(params: Params, bed: int, week: int, v: int) -> bool {
    params.varieties@[v].planting_schedule@[week] && requirements_met(
        params.varieties@[v],
        params.beds@[bed],
    )
}

/// The varieties below `n` that are plantable in (`bed`, `week`), in order.
pub open spec fn plantable_prefix(params: Params, bed: int, week: int, n: nat) -> Seq<usize>
    decreases n,
{
    if n == 0 {
        Seq::empty()
    } else {
        let p = plantable_prefix(params, bed, week, (n - 1) as nat);
        if plantable(params, bed, week, n - 1) {
            p.push((n - 1) as usize)
        } else {
            p
        }
    }
}

/// All varieties plantable in (`bed`, `week`), in order of id.
pub open spec fn plantable_varieties(params: Params, bed: int, week: int) -> Seq<usize> {
    plantable_prefix(params, bed, week, params.varieties@.len())
}

/// Every member of `plantable_prefix` is a plantable id below `n`.
pub proof fn lemma_plantable_prefix_members(params: Params, bed: int, week: int, n: nat, i: int)
    requires
        0 <= i < plantable_prefix(params, bed, week, n).len(),
        n <= usize::MAX + 1,
    ensures
        (plantable_prefix(params, bed, week, n)[i] as int) < n,
        plantable(params, bed, week, plantable_prefix(params, bed, week, n)[i] as int),
    decreases n,
{
    if n > 0 {
        let p = plantable_prefix(params, bed, week, (n - 1) as nat);
        if i < p.len() {
            lemma_plantable_prefix_members(params, bed, week, (n - 1) as nat, i);
        }
    }
}

/// A member of the menu of (`bed`, `week`) is a plantable variety of the catalog.
pub proof fn lemma_menu_member(params: Params, bed: int, week: int, v: usize)
    requires
        plantable_varieties(params, bed, week).contains(v),
        params.varieties@.len() <= usize::MAX,
    ensures
        (v as int) < params.varieties@.len(),
        plantable(params, bed, week, v as int),
{
    let menu = plantable_varieties(params, bed, week);
    let i = choose|i: int| 0 <= i < menu.len() && menu[i] == v;
    lemma_plantable_prefix_members(params, bed, week, params.varieties@.len(), i);
}

/// Rank weights of a population sorted by ascending score: rank `i` weighs `i + 1`.
pub open spec fn rank_weights() -> Seq<usize> {
    Seq::new(POPULATION_SIZE as nat, |i: int| (i + 1) as usize)
}

/// Random choices of the evolutionary search.
pub struct Rand {
    /// The seeded generator.
    pub rng: StdRng,
    /// Number of slots of a plan.
    pub num_genes: usize,
    /// Selection weight of each rank of the population.
    pub selection_weights: Vec<usize>,
    /// For each bed and week, the varieties that may be planted there.
    pub plantable_varieties_by_week_by_bed: Vec<Vec<Vec<usize>>>,
}

impl Rand {
    /// The menus of this generator are those of `params`.
    pub open spec fn serves(&self, params: Params) -> bool {
        &&& self.num_genes == params.genome_len()
        &&& self.selection_weights@ == rank_weights()
        &&& self.plantable_varieties_by_week_by_bed@.len() == params.beds@.len()
        &&& forall|b: int|
            0 <= b < params.beds@.len() ==> (#[trigger] self.plantable_varieties_by_week_by_bed@[b])@.len()
                == SEASON_LENGTH
        &&& forall|b: int, w: int|
            0 <= b < params.beds@.len() && 0 <= w < SEASON_LENGTH
                ==> (#[trigger] self.plantable_varieties_by_week_by_bed@[b]@[w])@ == plantable_varieties(
                params,
                b,
                w,
            )
    }

    /// Everything but the generator's state is as in `other`.
    pub open spec fn same_menus(&self, other: &Rand) -> bool {
        &&& self.num_genes == other.num_genes
        &&& self.selection_weights@ == other.selection_weights@
        &&& self.plantable_varieties_by_week_by_bed@.len() == other.plantable_varieties_by_week_by_bed@.len()
        &&& forall|b: int|
            0 <= b < self.plantable_varieties_by_week_by_bed@.len() ==> (#[trigger] self.plantable_varieties_by_week_by_bed@[b])@.len()
                == other.plantable_varieties_by_week_by_bed@[b]@.len()
        &&& forall|b: int, w: int|
            0 <= b < self.plantable_varieties_by_week_by_bed@.len() && 0 <= w
                < self.plantable_varieties_by_week_by_bed@[b]@.len()
                ==> (#[trigger] self.plantable_varieties_by_week_by_bed@[b]@[w])@
                == other.plantable_varieties_by_week_by_bed@[b]@[w]@
    }

    /// A generator whose menus are those of one serving `params` serves it too.
    pub proof fn lemma_same_menus_serves(a: &Rand, b: &Rand, params: Params)
        requires
            a.serves(params),
            b.same_menus(a),
        ensures
            b.serves(params),
    {
        assert forall|x: int|
            0 <= x < params.beds@.len() implies (#[trigger] b.plantable_varieties_by_week_by_bed@[x])@.len()
            == SEASON_LENGTH by {
            assert(a.plantable_varieties_by_week_by_bed@[x]@.len() == SEASON_LENGTH);
        }
        assert forall|x: int, w: int|
            0 <= x < params.beds@.len() && 0 <= w < SEASON_LENGTH implies (
            #[trigger] b.plantable_varieties_by_week_by_bed@[x]@[w])@ == plantable_varieties(
            params,
            x,
            w,
        ) by {
            assert(a.plantable_varieties_by_week_by_bed@[x]@.len() == SEASON_LENGTH);
            assert(a.plantable_varieties_by_week_by_bed@[x]@[w]@ == plantable_varieties(params, x, w));
        }
    }

    /// Keeping the menus twice keeps them.
    pub proof fn lemma_same_menus_trans(a: &Rand, b: &Rand, c: &Rand)
        requires
            b.same_menus(a),
            c.same_menus(b),
        ensures
            c.same_menus(a),
    {
        assert forall|x: int, w: int|
            0 <= x < c.plantable_varieties_by_week_by_bed@.len() && 0 <= w
                < c.plantable_varieties_by_week_by_bed@[x]@.len() implies (
            #[trigger] c.plantable_varieties_by_week_by_bed@[x]@[w])@
            == a.plantable_varieties_by_week_by_bed@[x]@[w]@ by {
            assert(b.plantable_varieties_by_week_by_bed@[x]@.len() == c.plantable_varieties_by_week_by_bed@[x]@.len());
            assert(b.plantable_varieties_by_week_by_bed@[x]@[w]@ == a.plantable_varieties_by_week_by_bed@[x]@[w]@);
        }
    }

    /// A generator seeded from `seed`, with the menus of `params`.
    pub fn new(params: &Params, seed: u64) -> (r: Rand)
        requires
            params.shaped(),
        ensures
            r.serves(*params),
    {
        let num_beds = params.beds.len();
        let num_varieties = params.varieties.len();
        let mut menus: Vec<Vec<Vec<usize>>> = Vec::new();
        let mut bed: usize = 0;
        while bed < num_beds
            invariant
                params.shaped(),
                num_beds == params.beds@.len(),
                num_varieties == params.varieties@.len(),
                bed <= num_beds,
                menus@.len() == bed,
                forall|b: int| 0 <= b < bed ==> (#[trigger] menus@[b])@.len() == SEASON_LENGTH,
                forall|b: int, w: int|
                    0 <= b < bed && 0 <= w < SEASON_LENGTH ==> (#[trigger] menus@[b]@[w])@
                        == plantable_varieties(*params, b, w),
            decreases num_beds - bed,
        {
            let mut by_week: Vec<Vec<usize>> = Vec::new();
            let mut week: usize = 0;
            while week < SEASON_LENGTH
                invariant
                    params.shaped(),
                    num_beds == params.beds@.len(),
                    num_varieties == params.varieties@.len(),
                    bed < num_beds,
                    week <= SEASON_LENGTH,
                    by_week@.len() == week,
                    forall|w: int| 0 <= w < week ==> (#[trigger] by_week@[w])@
                        == plantable_varieties(*params, bed as int, w),
                decreases SEASON_LENGTH - week,
            {
                let mut menu: Vec<usize> = Vec::new();
                let mut v: usize = 0;
                while v < num_varieties
                    invariant
                        params.shaped(),
                        num_beds == params.beds@.len(),
                        num_varieties == params.varieties@.len(),
                        bed < num_beds,
                        week < SEASON_LENGTH,
                        v <= num_varieties,
                        menu@ == plantable_prefix(*params, bed as int, week as int, v as nat),
                    decreases num_varieties - v,
                {
                    let variety = &params.varieties[v];
                    if variety.planting_schedule[week] && variety.are_requirements_met(&params.beds[bed]) {
                        menu.push(v);
                    }
                    v = v + 1;
                }
                by_week.push(menu);
                week = week + 1;
            }
            menus.push(by_week);
            bed = bed + 1;
        }
        let mut weights: Vec<usize> = Vec::new();
        let mut i: usize = 0;
        while i < POPULATION_SIZE
            invariant
                i <= POPULATION_SIZE,
                weights@ == Seq::new(i as nat, |k: int| (k + 1) as usize),
            decreases POPULATION_SIZE - i,
        {
            weights.push(i + 1);
            i = i + 1;
            assert(weights@ =~= Seq::new(i as nat, |k: int| (k + 1) as usize));
        }
        Rand {
            rng: seeded_rng(seed),
            num_genes: num_beds * SEASON_LENGTH,
            selection_weights: weights,
            plantable_varieties_by_week_by_bed: menus,
        }
    }

    /// Which parent a slot is copied from: a fair coin.
    pub fn random_parent(&mut self) -> (r: bool)
        ensures
            final(self).same_menus(old(self)),
    {
        fair_coin(&mut self.rng)
    }

    /// A slot of the plan, uniformly.
    pub fn random_gene(&mut self) -> (r: usize)
        requires
            old(self).num_genes > 0,
        ensures
            r < old(self).num_genes,
            final(self).same_menus(old(self)),
    {
        uniform_below(&mut self.rng, self.num_genes)
    }

    /// A rank of the score-sorted population; rank `i` is drawn with weight
    /// `i + 1`, so the best-ranked individual is the most likely.
    pub fn select_individual(&mut self) -> (r: usize)
        requires
            old(self).selection_weights@ == rank_weights(),
        ensures
            r < POPULATION_SIZE,
            final(self).same_menus(old(self)),
    {
        weighted_index(&mut self.rng, &self.selection_weights)
    }

    /// A variety plantable in `bed` at `week`, uniformly; `None` when there
    /// is none.
    pub fn random_variety(&mut self, week: usize, bed: usize) -> (r: Option<usize>)
        requires
            bed < old(self).plantable_varieties_by_week_by_bed@.len(),
            week < old(self).plantable_varieties_by_week_by_bed@[bed as int]@.len(),
        ensures
            final(self).same_menus(old(self)),
            r.is_none() <==> old(self).plantable_varieties_by_week_by_bed@[bed as int]@[week as int]@.len() == 0,
            r matches Some(v) ==> old(self).plantable_varieties_by_week_by_bed@[bed as int]@[week as int]@.contains(v),
    {
        let n = self.plantable_varieties_by_week_by_bed[bed][week].len();
        if n == 0 {
            None
        } else {
            let i = uniform_below(&mut self.rng, n);
            Some(self.plantable_varieties_by_week_by_bed[bed][week][i])
        }
    }
}

} // verus!
