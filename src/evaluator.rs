//! Projection of a decoded plan onto weekly baskets, and its fitness score.

use vstd::prelude::*;
use crate::basket::{Basket, difference, total_difference, lemma_total_difference_bounds};
use crate::bed_plan::{
    BedPlan, week_record, plan_valid, bed_slots, lap_records, lap_start, lemma_week_record_valid,
    records_tasks, records_valid,
};
use crate::tasks::{Tasks, empty_lists, file_tasks, lemma_file_tasks_concat, lemma_file_tasks_len};
use crate::params::Params;
use crate::season::{SEASON_LENGTH, MAX_BEDS, MAX_CATEGORIES};

verus! {

/// Units that bed `bed` supplies to category `category` in week `w`.
pub open spec fn contribution(params: Params, plan: Seq<usize>, bed: int, w: int, category: int) -> int {
    let r = week_record(params, plan, bed, w);
    if r.crop != 0 && params.varieties@[r.crop as int].basket_category == category {
        r.harvestable_units as int
    } else {
        0
    }
}

/// Units that the first `n` beds supply to `category` in week `w`.
pub open spec fn supply(params: Params, plan: Seq<usize>, w: int, category: int, n: nat) -> int
    decreases n,
{
    if n == 0 {
        0
    } else {
        supply(params, plan, w, category, (n - 1) as nat) + contribution(
            params,
            plan,
            (n - 1) as int,
            w,
            category,
        )
    }
}

/// The actual basket of week `w`: what all beds supply, per category.
pub open spec fn actual_basket(params: Params, plan: Seq<usize>, w: int) -> Seq<i64> {
    Seq::new(
        params.num_categories(),
        |c: int| supply(params, plan, w, c, params.num_beds_spec()) as i64,
    )
}

/// Number of nonzero slots among the first `n`.
pub open spec fn planting_count(plan: Seq<usize>, n: nat) -> int
    decreases n,
{
    if n == 0 {
        0
    } else {
        planting_count(plan, (n - 1) as nat) + if plan[n - 1] != 0 {
            1int
        } else {
            0int
        }
    }
}

/// Total difference between target and actual basket of week `w`.
pub open spec fn week_shortfall(params: Params, plan: Seq<usize>, w: int) -> int {
    total_difference(params.baskets@[w]@, actual_basket(params, plan, w), params.num_categories())
}

/// Sum of `week_shortfall` over the first `n` weeks.
pub open spec fn basket_shortfall(params: Params, plan: Seq<usize>, n: nat) -> int
    decreases n,
{
    if n == 0 {
        0
    } else {
        basket_shortfall(params, plan, (n - 1) as nat) + week_shortfall(params, plan, n - 1)
    }
}

/// Fitness of a plan: fewer plantings and closer baskets score higher.
pub open spec fn score_spec(params: Params, plan: Seq<usize>) -> int {
    -planting_count(plan, plan.len()) - basket_shortfall(params, plan, SEASON_LENGTH as nat)
}

proof fn lemma_supply_bounds(params: Params, plan: Seq<usize>, w: int, category: int, n: nat)
    ensures
        0 <= supply(params, plan, w, category, n) <= n * (u32::MAX as int),
    decreases n,
{
    if n > 0 {
        lemma_supply_bounds(params, plan, w, category, (n - 1) as nat);
        assert((n - 1) * (u32::MAX as int) + (u32::MAX as int) == n * (u32::MAX as int))
            by (nonlinear_arith);
    }
}

proof fn lemma_planting_count_bounds(plan: Seq<usize>, n: nat)
    ensures
        0 <= planting_count(plan, n) <= n,
    decreases n,
{
    if n > 0 {
        lemma_planting_count_bounds(plan, (n - 1) as nat);
    }
}

proof fn lemma_basket_shortfall_bounds(params: Params, plan: Seq<usize>, n: nat)
    requires
        params.wf(),
        n <= SEASON_LENGTH,
    ensures
        0 <= basket_shortfall(params, plan, n) <= n * MAX_CATEGORIES * (u64::MAX as int),
    decreases n,
{
    if n > 0 {
        lemma_basket_shortfall_bounds(params, plan, (n - 1) as nat);
        let ncat = params.num_categories();
        assert(params.baskets@[n - 1]@.len() == ncat);
        lemma_total_difference_bounds(params.baskets@[n - 1]@, actual_basket(params, plan, n - 1), ncat);
        assert(ncat * (u64::MAX as int) <= MAX_CATEGORIES * (u64::MAX as int)) by (nonlinear_arith)
            requires ncat <= MAX_CATEGORIES;
        assert((n - 1) * MAX_CATEGORIES * (u64::MAX as int) + MAX_CATEGORIES * (u64::MAX as int)
            == n * MAX_CATEGORIES * (u64::MAX as int)) by (nonlinear_arith);
    }
}

/// The tasks of the first `n` beds, bed after bed.
pub open spec fn plan_tasks(params: Params, plan: Seq<usize>, n: nat) -> Seq<(int, Seq<char>)>
    decreases n,
{
    if n == 0 {
        Seq::empty()
    } else {
        plan_tasks(params, plan, (n - 1) as nat) + records_tasks(
            params,
            n - 1,
            lap_records(params, bed_slots(plan, n - 1)),
            SEASON_LENGTH as nat,
        )
    }
}

/// Evaluates one flat plan against the catalogs.
pub struct Evaluator<'a> {
    params: &'a Params,
    planting_schedule: &'a Vec<usize>,
}

impl<'a> Evaluator<'a> {
    pub closed spec fn params_spec(&self) -> Params {
        *self.params
    }

    pub closed spec fn plan_spec(&self) -> Seq<usize> {
        self.planting_schedule@
    }

    /// Both catalogs and plan are valid and fit together.
    pub open spec fn wf(&self) -> bool {
        self.params_spec().wf() && plan_valid(self.params_spec(), self.plan_spec())
    }

    pub fn new(params: &'a Params, planting_schedule: &'a Vec<usize>) -> (r: Evaluator<'a>)
        ensures
            r.params_spec() == *params,
            r.plan_spec() == planting_schedule@,
    {
        Evaluator { params, planting_schedule }
    }

    /// The decoded plan of bed `bed`.
    pub fn get_bed_plan(&self, bed: usize) -> (r: BedPlan)
        requires
            self.wf(),
            bed < self.params_spec().beds@.len(),
        ensures
            r@ == lap_records(self.params_spec(), bed_slots(self.plan_spec(), bed as int)),
            r.bed_spec() == bed,
            r.start_spec() == lap_start(bed_slots(self.plan_spec(), bed as int)),
            0 <= r.start_spec() < SEASON_LENGTH,
            records_valid(self.params_spec(), r@),
    {
        BedPlan::new(bed, self.planting_schedule, self.params)
    }

    /// The tasks of every week: the tasks of each bed, filed bed after bed.
    pub fn get_tasks(&self) -> (r: Tasks)
        requires
            self.wf(),
        ensures
            r@ == file_tasks(
                empty_lists(),
                plan_tasks(self.params_spec(), self.plan_spec(), self.params_spec().beds@.len()),
            ),
    {
        let ghost params = self.params_spec();
        let ghost plan = self.plan_spec();
        let mut result = Tasks::new();
        let num_beds = self.params.beds.len();
        let mut bed: usize = 0;
        while bed < num_beds
            invariant
                self.wf(),
                params == self.params_spec(),
                plan == self.plan_spec(),
                num_beds == params.beds@.len(),
                bed <= num_beds,
                result@.len() == SEASON_LENGTH,
                result@ == file_tasks(empty_lists(), plan_tasks(params, plan, bed as nat)),
            decreases num_beds - bed,
        {
            let bed_plan = self.get_bed_plan(bed);
            let ghost done = plan_tasks(params, plan, bed as nat);
            bed_plan.write_instructions(self.params, &mut result);
            proof {
                let more = records_tasks(params, bed as int, bed_plan@, SEASON_LENGTH as nat);
                lemma_file_tasks_concat(empty_lists(), done, more);
                lemma_file_tasks_len(file_tasks(empty_lists(), done), more);
            }
            bed = bed + 1;
        }
        result
    }

    /// Number of slots that hold a planting.
    pub fn get_num_plantings(&self) -> (r: usize)
        ensures
            r == planting_count(self.plan_spec(), self.plan_spec().len()),
    {
        let mut n: usize = 0;
        let mut i: usize = 0;
        while i < self.planting_schedule.len()
            invariant
                i <= self.plan_spec().len(),
                n == planting_count(self.plan_spec(), i as nat),
                n <= i,
            decreases self.plan_spec().len() - i,
        {
            if self.planting_schedule[i] != 0 {
                n = n + 1;
            }
            i = i + 1;
        }
        n
    }

    /// The actual basket of each week of the season.
    pub fn get_baskets(&self) -> (r: Vec<Basket>)
        requires
            self.wf(),
        ensures
            r@.len() == SEASON_LENGTH,
            forall|w: int|
                0 <= w < SEASON_LENGTH ==> (#[trigger] r@[w])@ == actual_basket(
                    self.params_spec(),
                    self.plan_spec(),
                    w,
                ),
    {
        let ghost params = self.params_spec();
        let ghost plan = self.plan_spec();
        let num_beds = self.params.beds.len();
        let num_categories = self.params.basket_category_names.len();
        let mut bed_plans: Vec<BedPlan> = Vec::new();
        let mut b: usize = 0;
        while b < num_beds
            invariant
                self.wf(),
                params == self.params_spec(),
                plan == self.plan_spec(),
                num_beds == params.beds@.len(),
                b <= num_beds,
                bed_plans@.len() == b,
                forall|k: int|
                    0 <= k < b ==> (#[trigger] bed_plans@[k])@ == lap_records(
                        params,
                        bed_slots(plan, k),
                    ) && bed_plans@[k].start_spec() == lap_start(bed_slots(plan, k)) && 0
                        <= bed_plans@[k].start_spec() < SEASON_LENGTH,
            decreases num_beds - b,
        {
            bed_plans.push(self.get_bed_plan(b));
            b = b + 1;
        }
        let mut baskets: Vec<Basket> = Vec::new();
        let mut w: usize = 0;
        while w < SEASON_LENGTH
            invariant
                self.wf(),
                params == self.params_spec(),
                plan == self.plan_spec(),
                num_beds == params.beds@.len(),
                num_categories == params.num_categories(),
                bed_plans@.len() == num_beds,
                forall|k: int|
                    0 <= k < num_beds ==> (#[trigger] bed_plans@[k])@ == lap_records(
                        params,
                        bed_slots(plan, k),
                    ) && bed_plans@[k].start_spec() == lap_start(bed_slots(plan, k)) && 0
                        <= bed_plans@[k].start_spec() < SEASON_LENGTH,
                w <= SEASON_LENGTH,
                baskets@.len() == w,
                forall|v: int| 0 <= v < w ==> (#[trigger] baskets@[v])@ == actual_basket(params, plan, v),
            decreases SEASON_LENGTH - w,
        {
            let mut basket = Basket::new(num_categories);
            let mut b: usize = 0;
            while b < num_beds
                invariant
                    self.wf(),
                    params == self.params_spec(),
                    plan == self.plan_spec(),
                    num_beds == params.beds@.len(),
                    num_categories == params.num_categories(),
                    bed_plans@.len() == num_beds,
                    forall|k: int|
                        0 <= k < num_beds ==> (#[trigger] bed_plans@[k])@ == lap_records(
                            params,
                            bed_slots(plan, k),
                        ) && bed_plans@[k].start_spec() == lap_start(bed_slots(plan, k)) && 0
                            <= bed_plans@[k].start_spec() < SEASON_LENGTH,
                    w < SEASON_LENGTH,
                    b <= num_beds,
                    basket@ == Seq::new(
                        params.num_categories(),
                        |c: int| supply(params, plan, w as int, c, b as nat) as i64,
                    ),
                decreases num_beds - b,
            {
                let record = bed_plans[b].get_week(w);
                proof {
                    assert(record == week_record(params, plan, b as int, w as int));
                    lemma_week_record_valid(params, plan, b as int, w as int);
                }
                if record.harvestable_units != 0 {
                    let category = self.params.varieties[record.crop].basket_category;
                    proof {
                        lemma_supply_bounds(params, plan, w as int, category as int, b as nat);
                        assert(b * (u32::MAX as int) + (u32::MAX as int) <= MAX_BEDS * (u32::MAX as int))
                            by (nonlinear_arith)
                            requires b < MAX_BEDS;
                    }
                    basket.add(category, record.harvestable_units as i64);
                }
                proof {
                    let nb = (b + 1) as nat;
                    assert forall|c: int| 0 <= c < params.num_categories() implies #[trigger] basket@[c]
                        == supply(params, plan, w as int, c, nb) as i64 by {
                        assert(supply(params, plan, w as int, c, nb) == supply(
                            params,
                            plan,
                            w as int,
                            c,
                            b as nat,
                        ) + contribution(params, plan, b as int, w as int, c));
                        if record.crop == 0 {
                            assert(record.harvestable_units == 0);
                        }
                    }
                }
                b = b + 1;
                assert(basket@ =~= Seq::new(
                    params.num_categories(),
                    |c: int| supply(params, plan, w as int, c, b as nat) as i64,
                ));
            }
            assert(basket@ =~= actual_basket(params, plan, w as int));
            baskets.push(basket);
            w = w + 1;
        }
        baskets
    }

    /// Sum over the weeks of the difference between target and actual basket.
    pub fn get_total_basket_shortfall(&self) -> (r: u128)
        requires
            self.wf(),
        ensures
            r == basket_shortfall(self.params_spec(), self.plan_spec(), SEASON_LENGTH as nat),
    {
        let ghost params = self.params_spec();
        let ghost plan = self.plan_spec();
        let actual = self.get_baskets();
        let mut total: u128 = 0;
        let mut w: usize = 0;
        while w < SEASON_LENGTH
            invariant
                self.wf(),
                params == self.params_spec(),
                plan == self.plan_spec(),
                actual@.len() == SEASON_LENGTH,
                forall|v: int|
                    0 <= v < SEASON_LENGTH ==> (#[trigger] actual@[v])@ == actual_basket(params, plan, v),
                w <= SEASON_LENGTH,
                total == basket_shortfall(params, plan, w as nat),
            decreases SEASON_LENGTH - w,
        {
            proof {
                lemma_basket_shortfall_bounds(params, plan, (w + 1) as nat);
                assert((w + 1) * MAX_CATEGORIES * (u64::MAX as int) <= u128::MAX) by (nonlinear_arith)
                    requires w + 1 <= 52, MAX_CATEGORIES == 1000000, u64::MAX == 18446744073709551615u64;
                assert(params.baskets@[w as int]@.len() == params.num_categories());
            }
            let shortfall = self.params.baskets[w].total_shortfall(&actual[w]);
            total = total + shortfall;
            w = w + 1;
        }
        total
    }

    /// The difference between target and actual basket of each week, per
    /// category.
    pub fn get_shortfall_table(&self) -> (r: Vec<Vec<u64>>)
        requires
            self.wf(),
        ensures
            r@.len() == SEASON_LENGTH,
            forall|w: int|
                0 <= w < SEASON_LENGTH ==> (#[trigger] r@[w])@.len() == self.params_spec().num_categories()
                    && forall|c: int|
                    0 <= c < self.params_spec().num_categories() ==> #[trigger] r@[w]@[c] as int
                        == difference(
                        self.params_spec().baskets@[w]@,
                        actual_basket(self.params_spec(), self.plan_spec(), w),
                        c,
                    ),
    {
        let ghost params = self.params_spec();
        let ghost plan = self.plan_spec();
        let actual = self.get_baskets();
        let num_categories = self.params.basket_category_names.len();
        let mut table: Vec<Vec<u64>> = Vec::new();
        let mut w: usize = 0;
        while w < SEASON_LENGTH
            invariant
                self.wf(),
                params == self.params_spec(),
                plan == self.plan_spec(),
                num_categories == params.num_categories(),
                actual@.len() == SEASON_LENGTH,
                forall|v: int|
                    0 <= v < SEASON_LENGTH ==> (#[trigger] actual@[v])@ == actual_basket(params, plan, v),
                w <= SEASON_LENGTH,
                table@.len() == w,
                forall|v: int|
                    0 <= v < w ==> (#[trigger] table@[v])@.len() == num_categories && forall|c: int|
                        0 <= c < num_categories ==> #[trigger] table@[v]@[c] as int == difference(
                            params.baskets@[v]@,
                            actual_basket(params, plan, v),
                            c,
                        ),
            decreases SEASON_LENGTH - w,
        {
            assert(params.baskets@[w as int]@.len() == num_categories);
            let mut row: Vec<u64> = Vec::new();
            let mut c: usize = 0;
            while c < num_categories
                invariant
                    self.wf(),
                    params == self.params_spec(),
                    w < SEASON_LENGTH,
                    num_categories == params.num_categories(),
                    params.baskets@[w as int]@.len() == num_categories,
                    actual@.len() == SEASON_LENGTH,
                    actual@[w as int]@ == actual_basket(params, plan, w as int),
                    c <= num_categories,
                    row@.len() == c,
                    forall|x: int|
                        0 <= x < c ==> #[trigger] row@[x] as int == difference(
                            params.baskets@[w as int]@,
                            actual_basket(params, plan, w as int),
                            x,
                        ),
                decreases num_categories - c,
            {
                row.push(self.params.baskets[w].shortfall(&actual[w], c));
                c = c + 1;
            }
            table.push(row);
            w = w + 1;
        }
        table
    }

    /// The fitness score: minus the number of plantings, minus the total
    /// basket shortfall.
    pub fn score(&self) -> (r: i128)
        requires
            self.wf(),
        ensures
            r == score_spec(self.params_spec(), self.plan_spec()),
    {
        proof {
            lemma_basket_shortfall_bounds(self.params_spec(), self.plan_spec(), SEASON_LENGTH as nat);
            assert(SEASON_LENGTH * MAX_CATEGORIES * (u64::MAX as int) <= 0x1_0000_0000_0000_0000_0000_0000)
                by (nonlinear_arith)
                requires MAX_CATEGORIES == 1000000, u64::MAX == 18446744073709551615u64, SEASON_LENGTH == 52;
        }
        let plantings = self.get_num_plantings();
        let shortfall = self.get_total_basket_shortfall();
        0i128 - plantings as i128 - shortfall as i128
    }
}

} // verus!
