//! The evolutionary search: a population of plans, stepped generation by
//! generation with elitism, rank selection, crossover and mutation.

use vstd::prelude::*;
use crate::bed_plan::plan_valid;
use crate::evaluator::score_spec;
use crate::genome::{Genome, crossed, mutated, drawn_from_menu, randomized};
use crate::params::Params;
use crate::randomness::{Rand, lemma_menu_member};
use crate::season::{POPULATION_SIZE, SEASON_LENGTH};

verus! {

/// `s` with `x` inserted after every plan that scores at most as well.
pub open spec fn insert_by_score(params: Params, s: Seq<Seq<usize>>, x: Seq<usize>) -> Seq<Seq<usize>>
    decreases s.len(),
{
    if s.len() == 0 {
        seq![x]
    } else if score_spec(params, s.last()) <= score_spec(params, x) {
        s.push(x)
    } else {
        insert_by_score(params, s.drop_last(), x).push(s.last())
    }
}

/// `s` sorted by ascending score; plans of equal score keep their order.
pub open spec fn sort_by_score(params: Params, s: Seq<Seq<usize>>) -> Seq<Seq<usize>>
    decreases s.len(),
{
    if s.len() == 0 {
        s
    } else {
        insert_by_score(params, sort_by_score(params, s.drop_last()), s.last())
    }
}

/// Scores ascend along `s`.
pub open spec fn sorted_by_score(params: Params, s: Seq<Seq<usize>>) -> bool {
    forall|i: int, j: int|
        0 <= i <= j < s.len() ==> score_spec(params, #[trigger] s[i]) <= score_spec(params, #[trigger] s[j])
}

/// Inserting where the plans before score at most as well as `x` and the
/// plans after score better.
proof fn lemma_insert_at(params: Params, s: Seq<Seq<usize>>, x: Seq<usize>, pos: int)
    requires
        0 <= pos <= s.len(),
        forall|k: int| pos <= k < s.len() ==> score_spec(params, #[trigger] s[k]) > score_spec(params, x),
        pos > 0 ==> score_spec(params, s[pos - 1]) <= score_spec(params, x),
    ensures
        insert_by_score(params, s, x) == s.insert(pos, x),
    decreases s.len(),
{
    if s.len() == pos {
        if pos == 0 {
            assert(s.insert(pos, x) =~= seq![x]);
        } else {
            assert(s.insert(pos, x) =~= s.push(x));
        }
    } else {
        let t = s.drop_last();
        assert forall|k: int| pos <= k < t.len() implies score_spec(params, #[trigger] t[k]) > score_spec(
            params,
            x,
        ) by {
            assert(t[k] == s[k]);
        }
        if pos > 0 {
            assert(t[pos - 1] == s[pos - 1]);
        }
        lemma_insert_at(params, t, x, pos);
        assert(t.insert(pos, x).push(s.last()) =~= s.insert(pos, x));
    }
}

proof fn lemma_insert_contains(params: Params, s: Seq<Seq<usize>>, x: Seq<usize>)
    ensures
        insert_by_score(params, s, x).contains(x),
        forall|k: int| 0 <= k < s.len() ==> insert_by_score(params, s, x).contains(#[trigger] s[k]),
        insert_by_score(params, s, x).len() == s.len() + 1,
    decreases s.len(),
{
    let r = insert_by_score(params, s, x);
    if s.len() == 0 {
        assert(r[0] == x);
    } else if score_spec(params, s.last()) <= score_spec(params, x) {
        assert(r[s.len() as int] == x);
        assert forall|k: int| 0 <= k < s.len() implies r.contains(#[trigger] s[k]) by {
            assert(r[k] == s[k]);
        }
    } else {
        let t = s.drop_last();
        lemma_insert_contains(params, t, x);
        let rt = insert_by_score(params, t, x);
        let j = choose|j: int| 0 <= j < rt.len() && rt[j] == x;
        assert(r[j] == x);
        assert forall|k: int| 0 <= k < s.len() implies r.contains(#[trigger] s[k]) by {
            if k == s.len() - 1 {
                assert(r[rt.len() as int] == s[k]);
            } else {
                assert(t[k] == s[k]);
                assert(rt.contains(t[k]));
                let i = choose|i: int| 0 <= i < rt.len() && rt[i] == t[k];
                assert(r[i] == s[k]);
            }
        }
    }
}

/// Sorting keeps every plan and the number of plans.
pub proof fn lemma_sort_contains(params: Params, s: Seq<Seq<usize>>)
    ensures
        sort_by_score(params, s).len() == s.len(),
        forall|k: int| 0 <= k < s.len() ==> sort_by_score(params, s).contains(#[trigger] s[k]),
    decreases s.len(),
{
    if s.len() > 0 {
        let t = s.drop_last();
        lemma_sort_contains(params, t);
        let st = sort_by_score(params, t);
        lemma_insert_contains(params, st, s.last());
        assert forall|k: int| 0 <= k < s.len() implies sort_by_score(params, s).contains(#[trigger] s[k]) by {
            if k < s.len() - 1 {
                assert(t[k] == s[k]);
                assert(st.contains(t[k]));
                let i = choose|i: int| 0 <= i < st.len() && st[i] == t[k];
                assert(insert_by_score(params, st, s.last()).contains(st[i]));
            }
        }
    }
}

/// The random choices that make one child: two parent ranks, one coin per
/// slot, and the slot and variety of its mutation.
pub struct Draw {
    pub mother: usize,
    pub father: usize,
    pub from_mother: Vec<bool>,
    pub gene: usize,
    pub variety: usize,
}

/// `d` can make a child of a plan of `len` slots over `params`.
pub open spec fn draw_fits(params: Params, len: nat, d: Draw) -> bool {
    &&& d.mother < POPULATION_SIZE
    &&& d.father < POPULATION_SIZE
    &&& d.from_mother@.len() == len
    &&& len > 0 ==> d.gene < len
    &&& d.variety < params.varieties@.len()
}

/// `d` is one that the random draws of a step can give: the mutation's
/// variety comes from the slot's menu (0 when it is empty); with no slot at
/// all, there is no mutation and both are 0.
pub open spec fn draw_random(params: Params, len: nat, d: Draw) -> bool {
    &&& draw_fits(params, len, d)
    &&& len > 0 ==> drawn_from_menu(params, d.gene as int, d.variety as int)
    &&& len == 0 ==> d.gene == 0 && d.variety == 0
}

/// The child that `d` makes from the population `pop`: uniform crossover of
/// the two ranked parents, then one mutation.
pub open spec fn child_of(params: Params, pop: Seq<Seq<usize>>, d: Draw) -> Seq<usize> {
    mutated(
        params,
        crossed(pop[d.mother as int], pop[d.father as int], d.from_mother@),
        d.gene as int,
        d.variety as int,
    )
}

/// The unsorted next generation: the best plan of `pop` (its last), then one
/// child per draw.
pub open spec fn next_generation(params: Params, pop: Seq<Seq<usize>>, draws: Seq<Draw>) -> Seq<Seq<usize>> {
    seq![pop.last()] + Seq::new(draws.len(), |i: int| child_of(params, pop, draws[i]))
}

/// The population after one step with `draws`.
pub open spec fn stepped(params: Params, pop: Seq<Seq<usize>>, draws: Seq<Draw>) -> Seq<Seq<usize>> {
    sort_by_score(params, next_generation(params, pop, draws))
}

/// The plans of `v`.
pub open spec fn genome_plans<'a>(v: Seq<Genome<'a>>) -> Seq<Seq<usize>> {
    v.map_values(|g: Genome<'a>| g@)
}

/// Owns the population of the search; ranks are by ascending score, so the
/// last individual is the best.
pub struct Evolver<'a> {
    rand: Rand,
    params: &'a Params,
    pop: Vec<Genome<'a>>,
}

impl<'a> Evolver<'a> {
    pub closed spec fn params_spec(&self) -> Params {
        *self.params
    }

    /// The plans of the population, by ascending score.
    pub closed spec fn population(&self) -> Seq<Seq<usize>> {
        genome_plans(self.pop@)
    }

    /// Score of the best individual.
    pub open spec fn best_score_spec(&self) -> int {
        score_spec(self.params_spec(), self.population().last())
    }

    /// A full population of valid plans over the catalogs, sorted by score,
    /// and a generator serving the catalogs.
    pub closed spec fn wf(&self) -> bool {
        &&& self.params.wf()
        &&& self.rand.serves(*self.params)
        &&& self.pop@.len() == POPULATION_SIZE
        &&& forall|i: int|
            0 <= i < self.pop@.len() ==> (#[trigger] self.pop@[i]).wf() && self.pop@[i].params_spec()
                == *self.params
        &&& sorted_by_score(*self.params, self.population())
    }

    /// The facts about a well-formed evolver that callers may rely on.
    pub proof fn lemma_wf(&self)
        requires
            self.wf(),
        ensures
            self.params_spec().wf(),
            self.population().len() == POPULATION_SIZE,
            sorted_by_score(self.params_spec(), self.population()),
            forall|i: int|
                0 <= i < POPULATION_SIZE ==> plan_valid(self.params_spec(), #[trigger] self.population()[i]),
    {
        assert forall|i: int| 0 <= i < POPULATION_SIZE implies plan_valid(
            self.params_spec(),
            #[trigger] self.population()[i],
        ) by {
            assert(self.pop@[i].wf());
        }
    }

    /// A population of plans each randomized slot by slot, sorted by score,
    /// then put through one generation step.
    pub fn new(params: &'a Params, seed: u64) -> (r: Evolver<'a>)
        requires
            params.wf(),
        ensures
            r.wf(),
            r.params_spec() == *params,
            sorted_by_score(*params, r.population()),
            exists|init: Seq<Seq<usize>>, draws: Seq<Draw>|
                init.len() == POPULATION_SIZE && (forall|i: int|
                    0 <= i < POPULATION_SIZE ==> randomized(*params, #[trigger] init[i])
                        && plan_valid(*params, init[i])) && draws.len() == POPULATION_SIZE - 1
                    && (forall|i: int|
                    0 <= i < draws.len() ==> draw_random(*params, params.genome_len(), #[trigger] draws[i]))
                    && #[trigger] stepped(*params, sort_by_score(*params, init), draws) == r.population(),
    {
        let mut rand = Rand::new(params, seed);
        let mut pop: Vec<Genome<'a>> = Vec::new();
        let mut i: usize = 0;
        while i < POPULATION_SIZE
            invariant
                params.wf(),
                rand.serves(*params),
                i <= POPULATION_SIZE,
                pop@.len() == i,
                forall|k: int|
                    0 <= k < i ==> (#[trigger] pop@[k]).wf() && pop@[k].params_spec() == *params
                        && randomized(*params, pop@[k]@),
            decreases POPULATION_SIZE - i,
        {
            let mut g = Genome::new(params);
            let ghost rand0 = rand;
            g.randomize(&mut rand);
            proof {
                Rand::lemma_same_menus_serves(&rand0, &rand, *params);
            }
            pop.push(g);
            i = i + 1;
        }
        let ghost init = genome_plans(pop@);
        proof {
            assert forall|k: int| 0 <= k < POPULATION_SIZE implies randomized(*params, #[trigger] init[k])
                && plan_valid(*params, init[k]) by {
                assert(init[k] == pop@[k]@);
                assert(pop@[k].wf());
            }
        }
        let pop = Self::sort_by_fitness(pop, Ghost(*params));
        let mut evolver = Evolver { rand, params, pop };
        let ghost first = evolver.population();
        assert(first == sort_by_score(*params, init));
        evolver.step();
        proof {
            let draws = choose|draws: Seq<Draw>|
                draws.len() == POPULATION_SIZE - 1 && (forall|k: int|
                    0 <= k < draws.len() ==> draw_random(*params, params.genome_len(), #[trigger] draws[k]))
                    && #[trigger] stepped(*params, first, draws) == evolver.population();
            assert(stepped(*params, sort_by_score(*params, init), draws) == evolver.population());
        }
        evolver
    }

    /// The population ordered by ascending score; genomes of equal score
    /// keep their order.
    fn sort_by_fitness(population: Vec<Genome<'a>>, Ghost(params): Ghost<Params>) -> (r: Vec<Genome<'a>>)
        requires
            forall|i: int|
                0 <= i < population@.len() ==> (#[trigger] population@[i]).wf()
                    && population@[i].params_spec() == params,
        ensures
            r@.len() == population@.len(),
            forall|k: int|
                0 <= k < r@.len() ==> (#[trigger] r@[k]).wf() && r@[k].params_spec() == params,
            genome_plans(r@) == sort_by_score(params, genome_plans(population@)),
            sorted_by_score(params, genome_plans(r@)),
    {
        let ghost all = genome_plans(population@);
        let mut sorted: Vec<Genome<'a>> = Vec::new();
        let mut scores: Vec<i128> = Vec::new();
        let mut i: usize = 0;
        assert(all.take(0) =~= Seq::<Seq<usize>>::empty());
        assert(genome_plans(sorted@) =~= Seq::<Seq<usize>>::empty());
        while i < population.len()
            invariant
                all == genome_plans(population@),
                forall|k: int|
                    0 <= k < population@.len() ==> (#[trigger] population@[k]).wf()
                        && population@[k].params_spec() == params,
                i <= population@.len(),
                sorted@.len() == i,
                scores@.len() == i,
                forall|k: int|
                    0 <= k < i ==> (#[trigger] sorted@[k]).wf() && sorted@[k].params_spec() == params
                        && scores@[k] == score_spec(params, sorted@[k]@),
                genome_plans(sorted@) == sort_by_score(params, all.take(i as int)),
                sorted_by_score(params, genome_plans(sorted@)),
            decreases population@.len() - i,
        {
            let g = population[i].duplicate();
            let s = g.score();
            let mut pos: usize = sorted.len();
            while pos > 0 && scores[pos - 1] > s
                invariant
                    pos <= sorted@.len(),
                    sorted@.len() == i,
                    scores@.len() == i,
                    forall|k: int| pos <= k < i ==> #[trigger] scores@[k] > s,
                decreases pos,
            {
                pos = pos - 1;
            }
            let ghost before = genome_plans(sorted@);
            let ghost before_scores = scores@;
            proof {
                assert forall|k: int| pos <= k < before.len() implies score_spec(params, #[trigger] before[k])
                    > score_spec(params, g@) by {
                    assert(before[k] == sorted@[k]@);
                }
                if pos > 0 {
                    assert(before[pos - 1] == sorted@[pos - 1]@);
                }
                lemma_insert_at(params, before, g@, pos as int);
                assert(all.take(i + 1).drop_last() =~= all.take(i as int));
                assert(all.take(i + 1).last() == g@);
            }
            sorted.insert(pos, g);
            scores.insert(pos, s);
            proof {
                let after = genome_plans(sorted@);
                assert(after =~= before.insert(pos as int, g@));
                assert forall|k: int| 0 <= k < i + 1 implies (#[trigger] sorted@[k]).wf()
                    && sorted@[k].params_spec() == params && scores@[k] == score_spec(params, sorted@[k]@) by {
                    if k > pos {
                        assert(scores@[k] == before_scores[k - 1]);
                    }
                }
                assert forall|a: int, b: int| 0 <= a <= b < after.len() implies score_spec(
                    params,
                    #[trigger] after[a],
                ) <= score_spec(params, #[trigger] after[b]) by {
                    assert(after[a] == sorted@[a]@ && after[b] == sorted@[b]@);
                    if a < pos && b < pos {
                        assert(before[a] == after[a] && before[b] == after[b]);
                    } else if a < pos && b == pos {
                        assert(score_spec(params, before[a]) <= score_spec(params, before[pos - 1]));
                        assert(before[a] == after[a]);
                    } else if a < pos {
                        assert(before[a] == after[a] && before[b - 1] == after[b]);
                    } else if a == pos && b > pos {
                        assert(before[b - 1] == after[b]);
                        assert(before_scores[b - 1] > s);
                        assert(before_scores[b - 1] == score_spec(params, before[b - 1]));
                    } else if a > pos {
                        assert(before[a - 1] == after[a] && before[b - 1] == after[b]);
                    }
                }
            }
            i = i + 1;
        }
        assert(all.take(i as int) =~= all);
        sorted
    }

    /// The best individual: the last, whose score no member exceeds.
    pub fn get_best_solution(&self) -> (r: &Genome<'a>)
        requires
            self.wf(),
        ensures
            r@ == self.population().last(),
            r.params_spec() == self.params_spec(),
            r.wf(),
            forall|k: int|
                0 <= k < self.population().len() ==> score_spec(self.params_spec(), #[trigger] self.population()[k])
                    <= score_spec(self.params_spec(), r@),
    {
        proof {
            let pop = self.population();
            assert(pop[POPULATION_SIZE - 1] == self.pop@[POPULATION_SIZE - 1]@);
            assert forall|k: int| 0 <= k < pop.len() implies score_spec(self.params_spec(), #[trigger] pop[k])
                <= score_spec(self.params_spec(), pop[POPULATION_SIZE - 1]) by {
                assert(score_spec(*self.params, pop[k]) <= score_spec(*self.params, pop[POPULATION_SIZE - 1]));
            }
        }
        &self.pop[POPULATION_SIZE - 1]
    }

    /// Score of the best individual.
    pub fn get_best_score(&self) -> (r: i128)
        requires
            self.wf(),
        ensures
            r == self.best_score_spec(),
    {
        self.get_best_solution().score()
    }

    /// One generation with the given draws: the best individual survives
    /// unchanged, each draw makes one child, and the new population is put
    /// in score order.
    pub fn step_with(&mut self, draws: &Vec<Draw>)
        requires
            old(self).wf(),
            draws@.len() == POPULATION_SIZE - 1,
            forall|k: int|
                0 <= k < draws@.len() ==> draw_fits(
                    old(self).params_spec(),
                    old(self).params_spec().genome_len(),
                    #[trigger] draws@[k],
                ),
        ensures
            final(self).wf(),
            final(self).params_spec() == old(self).params_spec(),
            final(self).population() == stepped(old(self).params_spec(), old(self).population(), draws@),
    {
        let ghost params = *self.params;
        let ghost pop0 = self.population();
        let n = self.params.genome_size();
        let mut next: Vec<Genome<'a>> = Vec::new();
        next.push(self.pop[POPULATION_SIZE - 1].duplicate());
        let mut i: usize = 0;
        assert(genome_plans(next@) =~= next_generation(params, pop0, draws@.take(0)));
        while i < draws.len()
            invariant
                self.wf(),
                *self.params == params,
                self.population() == pop0,
                n == params.genome_len(),
                draws@.len() == POPULATION_SIZE - 1,
                forall|k: int| 0 <= k < draws@.len() ==> draw_fits(params, n as nat, #[trigger] draws@[k]),
                i <= draws@.len(),
                next@.len() == i + 1,
                forall|k: int| 0 <= k < next@.len() ==> (#[trigger] next@[k]).wf() && next@[k].params_spec() == params,
                genome_plans(next@) == next_generation(params, pop0, draws@.take(i as int)),
            decreases draws@.len() - i,
        {
            let d = &draws[i];
            assert(draw_fits(params, n as nat, draws@[i as int]));
            let mother = &self.pop[d.mother];
            let father = &self.pop[d.father];
            let mut child = Genome::new(self.params);
            Genome::cross_with(mother, father, &d.from_mother, &mut child);
            proof {
                assert(mother.wf() && father.wf());
                assert(mother@ == pop0[d.mother as int] && father@ == pop0[d.father as int]);
                assert forall|k: int| 0 <= k < child@.len() implies (#[trigger] child@[k] as int)
                    < params.varieties@.len() by {
                    assert(child@[k] == mother@[k] || child@[k] == father@[k]);
                }
            }
            if n > 0 {
                child.mutate_at(d.gene, d.variety);
            } else {
                assert(child@ =~= mutated(params, child@, d.gene as int, d.variety as int));
            }
            let ghost before = genome_plans(next@);
            next.push(child);
            proof {
                assert(child@ == child_of(params, pop0, draws@[i as int]));
                assert(genome_plans(next@) =~= before.push(child@));
                let t0 = draws@.take(i as int);
                let t1 = draws@.take(i + 1);
                assert(Seq::new(t1.len(), |j: int| child_of(params, pop0, t1[j])) =~= Seq::new(
                    t0.len(),
                    |j: int| child_of(params, pop0, t0[j]),
                ).push(child@));
                assert(next_generation(params, pop0, t1) =~= next_generation(params, pop0, t0).push(
                    child@,
                ));
            }
            i = i + 1;
        }
        assert(draws@.take(i as int) =~= draws@);
        self.pop = Self::sort_by_fitness(next, Ghost(params));
    }

    /// One generation: the best individual survives unchanged; each other
    /// member is the child of two parents drawn by rank, crossed slot by
    /// slot by coin flips, then mutated once at a random slot with a variety
    /// drawn from that slot's menu; the new population is put in score
    /// order. The best score never decreases.
    pub fn step(&mut self)
        requires
            old(self).wf(),
        ensures
            final(self).wf(),
            final(self).params_spec() == old(self).params_spec(),
            sorted_by_score(final(self).params_spec(), final(self).population()),
            exists|draws: Seq<Draw>|
                draws.len() == POPULATION_SIZE - 1 && (forall|k: int|
                    0 <= k < draws.len() ==> draw_random(
                        old(self).params_spec(),
                        old(self).params_spec().genome_len(),
                        #[trigger] draws[k],
                    )) && #[trigger] stepped(old(self).params_spec(), old(self).population(), draws)
                    == final(self).population(),
            final(self).best_score_spec() >= old(self).best_score_spec(),
            final(self).population().contains(old(self).population().last()),
    {
        let ghost params = *self.params;
        let ghost pop0 = self.population();
        let n = self.params.genome_size();
        let num_varieties = self.params.varieties.len();
        let mut draws: Vec<Draw> = Vec::new();
        let ghost me = *self;
        while draws.len() < POPULATION_SIZE - 1
            invariant
                self.wf(),
                self.pop == me.pop,
                self.params == me.params,
                *self.params == params,
                self.population() == pop0,
                n == params.genome_len(),
                num_varieties == params.varieties@.len(),
                draws@.len() <= POPULATION_SIZE - 1,
                forall|k: int| 0 <= k < draws@.len() ==> draw_random(params, n as nat, #[trigger] draws@[k]),
            decreases POPULATION_SIZE - 1 - draws@.len(),
        {
            let ghost rand0 = self.rand;
            let mother = self.rand.select_individual();
            let ghost rand1 = self.rand;
            let father = self.rand.select_individual();
            proof {
                Rand::lemma_same_menus_trans(&rand0, &rand1, &self.rand);
            }
            let mut from_mother: Vec<bool> = Vec::new();
            while from_mother.len() < n
                invariant
                    from_mother@.len() <= n,
                    self.rand.same_menus(&rand0),
                    rand0.serves(params),
                    self.pop == me.pop,
                    self.params == me.params,
                    *self.params == params,
                decreases n - from_mother@.len(),
            {
                let ghost r1 = self.rand;
                from_mother.push(self.rand.random_parent());
                proof {
                    Rand::lemma_same_menus_trans(&rand0, &r1, &self.rand);
                }
            }
            proof {
                Rand::lemma_same_menus_serves(&rand0, &self.rand, params);
            }
            let mut gene: usize = 0;
            let mut variety: usize = 0;
            if n > 0 {
                let ghost r2 = self.rand;
                gene = self.rand.random_gene();
                let week = gene % SEASON_LENGTH;
                let bed = gene / SEASON_LENGTH;
                proof {
                    assert(bed < params.beds@.len()) by (nonlinear_arith)
                        requires
                            gene < params.beds@.len() * 52,
                            bed == gene / 52;
                }
                let ghost r3 = self.rand;
                let choice = self.rand.random_variety(week, bed);
                proof {
                    Rand::lemma_same_menus_trans(&r2, &r3, &self.rand);
                    Rand::lemma_same_menus_serves(&r2, &self.rand, params);
                }
                match choice {
                    Some(v) => {
                        proof {
                            lemma_menu_member(params, bed as int, week as int, v);
                        }
                        variety = v;
                    },
                    None => {},
                }
                assert(drawn_from_menu(params, gene as int, variety as int));
            }
            draws.push(Draw { mother, father, from_mother, gene, variety });
        }
        self.step_with(&draws);
        proof {
            let next = next_generation(params, pop0, draws@);
            lemma_sort_contains(params, next);
            assert(next[0] == pop0.last());
            let fin = self.population();
            let k = choose|k: int| 0 <= k < fin.len() && fin[k] == next[0];
            assert(score_spec(params, fin[k]) <= score_spec(params, fin[POPULATION_SIZE - 1]));
            assert(fin.last() == fin[POPULATION_SIZE - 1]);
            assert(draws@.len() == POPULATION_SIZE - 1);
            assert(forall|k: int|
                0 <= k < draws@.len() ==> draw_random(params, params.genome_len(), #[trigger] draws@[k]));
            assert(stepped(params, pop0, draws@) == fin);
        }
    }
}

/// Generations without a strictly better best score after which the search
/// is considered converged.
pub const STALE_GENERATIONS: usize = 1000;

/// Tracks the best score seen over generations and how long it has not
/// improved.
pub struct Progress {
    pub best_score: Option<i128>,
    pub num_gens_without_improvement: usize,
}

impl Progress {
    /// No generation seen yet.
    pub fn new() -> (r: Progress)
        ensures
            r.best_score.is_none(),
            r.num_gens_without_improvement == 0,
    {
        Progress { best_score: None, num_gens_without_improvement: 0 }
    }

    /// Records the best score of one more generation; returns whether it
    /// strictly improves on every earlier one.
    pub fn observe(&mut self, score: i128) -> (improved: bool)
        ensures
            improved == match old(self).best_score {
                Some(b) => score > b,
                None => true,
            },
            improved ==> final(self).best_score == Some(score) && final(self).num_gens_without_improvement
                == 0,
            !improved ==> final(self).best_score == old(self).best_score
                && final(self).num_gens_without_improvement == if old(self).num_gens_without_improvement
                < usize::MAX {
                (old(self).num_gens_without_improvement + 1) as usize
            } else {
                old(self).num_gens_without_improvement
            },
    {
        let improved = match self.best_score {
            Some(b) => score > b,
            None => true,
        };
        if improved {
            self.best_score = Some(score);
            self.num_gens_without_improvement = 0;
        } else if self.num_gens_without_improvement < usize::MAX {
            self.num_gens_without_improvement = self.num_gens_without_improvement + 1;
        }
        improved
    }

    /// Has the best score not improved for `STALE_GENERATIONS` generations.
    pub fn is_converged(&self) -> (r: bool)
        ensures
            r == (self.num_gens_without_improvement >= STALE_GENERATIONS),
    {
        self.num_gens_without_improvement >= STALE_GENERATIONS
    }
}

} // verus!
