//! One candidate plan of the search, and the operators that derive plans.

use vstd::prelude::*;
use crate::bed_plan::{plan_valid, longevity_of, week_record};
use crate::evaluator::{Evaluator, score_spec};
use crate::params::Params;
use crate::plan::{Plan, copy_genes};
use crate::randomness::{Rand, plantable, plantable_varieties, lemma_menu_member};
use crate::season::SEASON_LENGTH;

verus! {

/// The slots after writing `variety` at `gene`: first the slots of that bed
/// from its week through the variety's longevity are cleared, clipped at the
/// season's end, then `variety` is written at `gene`.
pub open spec fn mutated(params: Params, data: Seq<usize>, gene: int, variety: int) -> Seq<usize> {
    let week = gene % (SEASON_LENGTH as int);
    let first = gene;
    let end = if week + longevity_of(params, variety) < SEASON_LENGTH {
        gene + longevity_of(params, variety)
    } else {
        gene - week + SEASON_LENGTH
    };
    Seq::new(
        data.len(),
        |i: int|
            if i == gene {
                variety as usize
            } else if first <= i < end {
                0usize
            } else {
                data[i]
            },
    )
}

/// Saving a genome's slots and reloading them into a fresh genome over the
/// same catalogs reproduces the same decode of every bed and week: the saved
/// slots are accepted on reload, and a genome holding them has the records
/// and the score of the genome they were saved from.
pub proof fn lemma_reload_same_decode<'a>(source: Genome<'a>, saved: Seq<usize>, reloaded: Genome<'a>)
    requires
        source.wf(),
        saved == source@,
        reloaded@ == saved,
        reloaded.params_spec() == source.params_spec(),
    ensures
        plan_valid(source.params_spec(), saved),
        reloaded.wf(),
        forall|bed: int, week: int|
            0 <= bed < source.params_spec().beds@.len() && 0 <= week < SEASON_LENGTH
                ==> #[trigger] week_record(source.params_spec(), reloaded@, bed, week)
                == week_record(source.params_spec(), source@, bed, week),
        score_spec(reloaded.params_spec(), reloaded@) == score_spec(source.params_spec(), source@),
{
}

/// Each slot from `mother` where `from_mother` holds, else from `father`.
pub open spec fn crossed(mother: Seq<usize>, father: Seq<usize>, from_mother: Seq<bool>) -> Seq<usize> {
    Seq::new(mother.len(), |i: int| if from_mother[i] { mother[i] } else { father[i] })
}

/// The varieties plantable at slot `gene`.
pub open spec fn slot_menu(params: Params, gene: int) -> Seq<usize> {
    plantable_varieties(params, gene / (SEASON_LENGTH as int), gene % (SEASON_LENGTH as int))
}

/// `variety` is one that a random draw for slot `gene` can give: a member of
/// the slot's menu, or 0 exactly when the menu is empty.
pub open spec fn drawn_from_menu(params: Params, gene: int, variety: int) -> bool {
    &&& 0 <= variety < params.varieties@.len()
    &&& slot_menu(params, gene).len() == 0 ==> variety == 0
    &&& slot_menu(params, gene).len() > 0 ==> slot_menu(params, gene).contains(variety as usize)
}

/// Every slot of `plan` holds what a random draw for it can give.
pub open spec fn randomized(params: Params, plan: Seq<usize>) -> bool {
    forall|g: int| 0 <= g < plan.len() ==> drawn_from_menu(params, g, #[trigger] plan[g] as int)
}

/// A candidate plan over the catalogs `params`.
pub struct Genome<'a> {
    plan: Plan,
    params: &'a Params,
}

impl<'a> View for Genome<'a> {
    type V = Seq<usize>;

    closed spec fn view(&self) -> Seq<usize> {
        self.plan@
    }
}

impl<'a> Genome<'a> {
    pub closed spec fn params_spec(&self) -> Params {
        *self.params
    }

    /// The catalogs are valid and every slot names one of their varieties.
    pub open spec fn wf(&self) -> bool {
        self.params_spec().wf() && plan_valid(self.params_spec(), self@)
    }

    /// An empty plan: every slot 0.
    pub fn new(params: &'a Params) -> (r: Genome<'a>)
        requires
            params.wf(),
        ensures
            r@ == Seq::new(params.genome_len(), |_i: int| 0usize),
            r.params_spec() == *params,
            r.wf(),
    {
        let plan = Plan::new(params.beds.len());
        Genome { plan, params }
    }

    /// A genome holding `genes`, when they form a valid plan over `params`.
    pub fn from_genes(params: &'a Params, genes: Vec<usize>) -> (r: Option<Genome<'a>>)
        requires
            params.wf(),
        ensures
            r.is_some() <==> plan_valid(*params, genes@),
            r matches Some(g) ==> g@ == genes@ && g.params_spec() == *params && g.wf(),
    {
        let size = params.genome_size();
        if genes.len() != size {
            return None;
        }
        let num_varieties = params.varieties.len();
        let mut i: usize = 0;
        while i < genes.len()
            invariant
                i <= genes@.len(),
                num_varieties == params.varieties@.len(),
                forall|k: int| 0 <= k < i ==> (#[trigger] genes@[k] as int) < params.varieties@.len(),
            decreases genes@.len() - i,
        {
            if genes[i] >= num_varieties {
                return None;
            }
            i = i + 1;
        }
        Some(Genome { plan: Plan::from_genes(genes), params })
    }

    /// The slots of this genome.
    pub fn get_genes(&self) -> (r: Vec<usize>)
        ensures
            r@ == self@,
    {
        copy_genes(self.plan.get_data())
    }

    /// A copy of this genome's plan.
    pub fn to_plan(&self) -> (r: Plan)
        ensures
            r@ == self@,
    {
        self.plan.duplicate()
    }

    /// A copy of this genome over the same catalogs.
    pub fn duplicate(&self) -> (r: Genome<'a>)
        ensures
            r@ == self@,
            r.params_spec() == self.params_spec(),
    {
        Genome { plan: self.plan.duplicate(), params: self.params }
    }

    /// An evaluator of this genome's plan.
    pub fn to_evaluator(&self) -> (r: Evaluator<'_>)
        ensures
            r.params_spec() == self.params_spec(),
            r.plan_spec() == self@,
    {
        Evaluator::new(self.params, self.plan.get_data())
    }

    /// The fitness score of this genome.
    pub fn score(&self) -> (r: i128)
        requires
            self.wf(),
        ensures
            r == score_spec(self.params_spec(), self@),
    {
        self.to_evaluator().score()
    }

    /// Crossover by given choices: slot `i` of `child` is copied from
    /// `mother` where `from_mother[i]` holds, else from `father`.
    pub fn cross_with(mother: &Self, father: &Self, from_mother: &Vec<bool>, child: &mut Self)
        requires
            mother@.len() == father@.len(),
            from_mother@.len() == mother@.len(),
            old(child)@.len() == mother@.len(),
        ensures
            final(child)@ == crossed(mother@, father@, from_mother@),
            final(child).params_spec() == old(child).params_spec(),
    {
        let genes_mother = mother.plan.get_data();
        let genes_father = father.plan.get_data();
        let genes_child = child.plan.get_data_mut();
        let mut gene: usize = 0;
        while gene < genes_mother.len()
            invariant
                genes_mother@ == mother@,
                genes_father@ == father@,
                mother@.len() == father@.len(),
                from_mother@.len() == mother@.len(),
                genes_child@.len() == mother@.len(),
                gene <= mother@.len(),
                forall|i: int|
                    0 <= i < gene ==> #[trigger] genes_child@[i] == if from_mother@[i] {
                        mother@[i]
                    } else {
                        father@[i]
                    },
            decreases mother@.len() - gene,
        {
            let variety = if from_mother[gene] {
                genes_mother[gene]
            } else {
                genes_father[gene]
            };
            genes_child.set(gene, variety);
            gene = gene + 1;
        }
        proof {
            assert(genes_child@ =~= Seq::new(
                mother@.len(),
                |i: int| if from_mother@[i] { mother@[i] } else { father@[i] },
            ));
        }
    }

    /// Uniform crossover: each slot of `child` is copied from `mother` or
    /// from `father`, by a fresh coin flip.
    pub fn cross(mother: &Self, father: &Self, child: &mut Self, rand: &mut Rand)
        requires
            mother@.len() == father@.len(),
            old(child)@.len() == mother@.len(),
        ensures
            final(child)@.len() == mother@.len(),
            forall|i: int|
                0 <= i < mother@.len() ==> #[trigger] final(child)@[i] == mother@[i]
                    || final(child)@[i] == father@[i],
            final(child).params_spec() == old(child).params_spec(),
            final(rand).same_menus(old(rand)),
    {
        let n = mother.plan.get_data().len();
        let ghost rand0 = *rand;
        let mut from_mother: Vec<bool> = Vec::new();
        let mut gene: usize = 0;
        while gene < n
            invariant
                gene <= n,
                n == mother@.len(),
                from_mother@.len() == gene,
                rand.same_menus(&rand0),
            decreases n - gene,
        {
            let ghost before = *rand;
            from_mother.push(rand.random_parent());
            proof {
                Rand::lemma_same_menus_trans(&rand0, &before, rand);
            }
            gene = gene + 1;
        }
        Self::cross_with(mother, father, &from_mother, child);
    }

    /// Writes `variety` at slot `gene`, after clearing the slots of that bed
    /// from its week through the variety's longevity (clipped at the
    /// season's end).
    pub fn mutate_at(&mut self, gene: usize, variety: usize)
        requires
            old(self).wf(),
            gene < old(self)@.len(),
            variety < old(self).params_spec().varieties@.len(),
        ensures
            final(self)@ == mutated(old(self).params_spec(), old(self)@, gene as int, variety as int),
            final(self).params_spec() == old(self).params_spec(),
            final(self).wf(),
    {
        let ghost params = self.params_spec();
        let ghost data = self@;
        let week = gene % SEASON_LENGTH;
        let longevity = self.params.varieties[variety].get_longevity();
        let end_week = if longevity < SEASON_LENGTH - week {
            week + longevity
        } else {
            SEASON_LENGTH
        };
        let base = gene - week;
        let len = self.plan.get_data().len();
        let genes = self.plan.get_data_mut();
        let mut w: usize = week;
        while w < end_week
            invariant
                week <= w <= end_week <= SEASON_LENGTH,
                base + week == gene,
                gene < data.len(),
                base + SEASON_LENGTH <= data.len(),
                data.len() == len,
                genes@.len() == data.len(),
                forall|i: int|
                    0 <= i < data.len() ==> #[trigger] genes@[i] == if gene <= i < base + w {
                        0usize
                    } else {
                        data[i]
                    },
            decreases end_week - w,
        {
            genes.set(base + w, 0);
            w = w + 1;
        }
        genes.set(gene, variety);
        proof {
            assert(genes@ =~= mutated(params, data, gene as int, variety as int));
        }
    }

    /// Rewrites one random slot with a random variety plantable there (or 0
    /// when none is), clearing the slots its crop will occupy.
    pub fn mutate(&mut self, rand: &mut Rand)
        requires
            old(self).wf(),
            old(rand).serves(old(self).params_spec()),
        ensures
            final(self).wf(),
            final(self).params_spec() == old(self).params_spec(),
            final(rand).same_menus(old(rand)),
            old(self)@.len() == 0 ==> final(self)@ == old(self)@,
            old(self)@.len() > 0 ==> exists|gene: int, variety: int|
                0 <= gene < old(self)@.len() && drawn_from_menu(old(self).params_spec(), gene, variety)
                    && #[trigger] mutated(old(self).params_spec(), old(self)@, gene, variety)
                    == final(self)@,
    {
        let ghost params = self.params_spec();
        if self.plan.get_data().len() == 0 {
            return;
        }
        let gene = rand.random_gene();
        let week = gene % SEASON_LENGTH;
        let bed = gene / SEASON_LENGTH;
        proof {
            assert(bed < params.beds@.len()) by (nonlinear_arith)
                requires
                    gene < params.beds@.len() * 52,
                    bed == gene / 52;
        }
        let ghost rand1 = *rand;
        let choice = rand.random_variety(week, bed);
        proof {
            Rand::lemma_same_menus_trans(old(rand), &rand1, rand);
        }
        let num_varieties = self.params.varieties.len();
        assert(num_varieties == params.varieties@.len());
        let variety = match choice {
            Some(v) => {
                proof {
                    lemma_menu_member(params, bed as int, week as int, v);
                }
                v
            },
            None => 0,
        };
        assert(drawn_from_menu(params, gene as int, variety as int));
        self.mutate_at(gene, variety);
    }

    /// Fills every slot in turn with a random plantable variety (or 0 where
    /// nothing is plantable); a later slot's clearing never reaches back, so
    /// every slot keeps what was drawn for it.
    pub fn randomize(&mut self, rand: &mut Rand)
        requires
            old(self).wf(),
            old(rand).serves(old(self).params_spec()),
        ensures
            final(self).wf(),
            final(self).params_spec() == old(self).params_spec(),
            final(rand).same_menus(old(rand)),
            randomized(final(self).params_spec(), final(self)@),
    {
        let ghost params = self.params_spec();
        let n = self.plan.get_data().len();
        let num_varieties = self.params.varieties.len();
        let mut gene: usize = 0;
        while gene < n
            invariant
                self.wf(),
                self.params_spec() == params,
                self@.len() == n,
                n == params.genome_len(),
                num_varieties == params.varieties@.len(),
                gene <= n,
                rand.same_menus(old(rand)),
                old(rand).serves(params),
                forall|k: int| 0 <= k < gene ==> drawn_from_menu(params, k, #[trigger] self@[k] as int),
            decreases n - gene,
        {
            let week = gene % SEASON_LENGTH;
            let bed = gene / SEASON_LENGTH;
            proof {
                assert(bed < params.beds@.len()) by (nonlinear_arith)
                    requires
                        gene < params.beds@.len() * 52,
                        bed == gene / 52;
                Rand::lemma_same_menus_serves(old(rand), rand, params);
            }
            let ghost rand1 = *rand;
            let choice = rand.random_variety(week, bed);
            proof {
                Rand::lemma_same_menus_trans(old(rand), &rand1, rand);
            }
            let variety = match choice {
                Some(v) => {
                    proof {
                        lemma_menu_member(params, bed as int, week as int, v);
                    }
                    v
                },
                None => 0,
            };
            assert(drawn_from_menu(params, gene as int, variety as int));
            let ghost before = self@;
            self.mutate_at(gene, variety);
            assert forall|k: int| 0 <= k < gene + 1 implies drawn_from_menu(
                params,
                k,
                #[trigger] self@[k] as int,
            ) by {
                if k < gene {
                    assert(self@[k] == before[k]);
                }
            }
            gene = gene + 1;
        }
    }
}

} // verus!
