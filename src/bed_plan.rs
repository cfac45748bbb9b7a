//! Decoding one bed's slots into what grows there week by week.
//!
//! A bed is walked for exactly one lap of the season, starting at its first
//! planting (or at week 0 if it is never planted) and wrapping round, so that
//! a crop planted late in the season carries over into the early weeks.

use vstd::prelude::*;
use crate::params::{Bed, Params, Variety};
use crate::season::SEASON_LENGTH;
use crate::tasks::{
    Tasks, file_tasks, lemma_file_tasks_concat, lemma_file_tasks_len, lemma_file_tasks_push,
};
use crate::text::{decimal, replaced, replace_all, label_text, decimal_text};

verus! {

/// What one bed holds in one week.
#[derive(Clone, Copy, PartialEq, Eq, Debug)]
pub struct BedWeek {
    pub week: usize,
    /// Growing variety, 0 when nothing grows.
    pub crop: usize,
    /// Weeks since the growing variety was planted.
    pub crop_age: usize,
    pub harvestable_units: u32,
}

impl BedWeek {
    /// The variety growing this week, if any.
    pub fn get_growing_variety(&self) -> (r: Option<usize>)
        ensures
            r == if self.crop != 0 { Some(self.crop) } else { None::<usize> },
    {
        if self.crop != 0 { Some(self.crop) } else { None }
    }

    /// The variety planted this week, if any: one that grows at age 0.
    pub fn get_planted_variety(&self) -> (r: Option<usize>)
        ensures
            r == if self.crop != 0 && self.crop_age == 0 { Some(self.crop) } else { None::<usize> },
    {
        if self.crop != 0 && self.crop_age == 0 { Some(self.crop) } else { None }
    }
}

/// The slots of bed `bed` in a flat plan.
pub open spec fn bed_slots(plan: Seq<usize>, bed: int) -> Seq<usize> {
    plan.subrange(bed * SEASON_LENGTH as int, bed * SEASON_LENGTH as int + SEASON_LENGTH as int)
}

/// The first week at or after `i` with a planting, or 0 if there is none.
pub open spec fn first_planting_from(slots: Seq<usize>, i: int) -> int
    decreases SEASON_LENGTH - i,
{
    if i < 0 || i >= SEASON_LENGTH {
        0
    } else if slots[i] != 0 {
        i
    } else {
        first_planting_from(slots, i + 1)
    }
}

/// The week at which the lap over a bed starts.
pub open spec fn lap_start(slots: Seq<usize>) -> int {
    first_planting_from(slots, 0)
}

/// The week visited at step `k` of the lap.
pub open spec fn lap_week(slots: Seq<usize>, k: int) -> int {
    (lap_start(slots) + k) % (SEASON_LENGTH as int)
}

/// The step of the lap at which week `w` is visited.
pub open spec fn lap_step(slots: Seq<usize>, w: int) -> int {
    (w + SEASON_LENGTH - lap_start(slots)) % (SEASON_LENGTH as int)
}

/// Weeks that `variety` occupies a bed once planted.
pub open spec fn longevity_of(params: Params, variety: int) -> int {
    params.varieties@[variety].harvest_schedule@.len() as int
}

/// Harvestable units of `crop` at `age`: nothing when nothing grows or past
/// the end of its yield curve.
pub open spec fn units_of(params: Params, crop: int, age: int) -> int {
    if crop != 0 && 0 <= age < longevity_of(params, crop) {
        params.varieties@[crop].harvest_schedule@[age] as int
    } else {
        0
    }
}

/// (growing variety, age) recorded at step `k` of the lap: a planting starts
/// a crop at age 0, pre-empting what grew; a crop that reached its longevity
/// is cleared.
pub open spec fn lap_state(params: Params, slots: Seq<usize>, k: nat) -> (int, int)
    decreases k,
{
    let w = lap_week(slots, k as int);
    let carried = if k == 0 {
        (0int, 0int)
    } else {
        let p = lap_state(params, slots, (k - 1) as nat);
        (p.0, p.1 + 1)
    };
    let planted = if slots[w] != 0 {
        (slots[w] as int, 0int)
    } else {
        carried
    };
    if planted.0 != 0 && planted.1 >= longevity_of(params, planted.0) {
        (0int, 0int)
    } else {
        planted
    }
}

/// The record produced at step `k` of the lap.
pub open spec fn lap_record(params: Params, slots: Seq<usize>, k: nat) -> BedWeek {
    let s = lap_state(params, slots, k);
    BedWeek {
        week: lap_week(slots, k as int) as usize,
        crop: s.0 as usize,
        crop_age: s.1 as usize,
        harvestable_units: units_of(params, s.0, s.1) as u32,
    }
}

/// The record of week `w` of bed `bed` in `plan`.
pub open spec fn week_record(params: Params, plan: Seq<usize>, bed: int, w: int) -> BedWeek {
    let slots = bed_slots(plan, bed);
    lap_record(params, slots, lap_step(slots, w) as nat)
}

/// Every slot of `plan` names a variety of the catalog, and there is one
/// slot per bed and week.
pub open spec fn plan_valid(params: Params, plan: Seq<usize>) -> bool {
    &&& plan.len() == params.genome_len()
    &&& forall|i: int| 0 <= i < plan.len() ==> (#[trigger] plan[i] as int) < params.varieties@.len()
}

/// Number of records among the first `n` that have something growing.
pub open spec fn occupied_count(records: Seq<BedWeek>, n: nat) -> nat
    decreases n,
{
    if n == 0 {
        0
    } else {
        occupied_count(records, (n - 1) as nat) + if records[n - 1].crop != 0 {
            1nat
        } else {
            0nat
        }
    }
}

proof fn lemma_lap_start_range(slots: Seq<usize>, i: int)
    ensures
        0 <= first_planting_from(slots, i) < SEASON_LENGTH,
    decreases SEASON_LENGTH - i,
{
    if 0 <= i < SEASON_LENGTH && slots[i] == 0 {
        lemma_lap_start_range(slots, i + 1);
    }
}

proof fn lemma_lap_state_range(params: Params, slots: Seq<usize>, k: nat)
    requires
        slots.len() == SEASON_LENGTH,
        forall|i: int| 0 <= i < SEASON_LENGTH ==> (#[trigger] slots[i] as int) < params.varieties@.len(),
    ensures
        0 <= lap_state(params, slots, k).0 < params.varieties@.len(),
        lap_state(params, slots, k).0 <= usize::MAX,
        0 <= lap_state(params, slots, k).1 <= k,
        lap_state(params, slots, k).0 == 0 || lap_state(params, slots, k).1 < longevity_of(
            params,
            lap_state(params, slots, k).0,
        ),
    decreases k,
{
    lemma_lap_start_range(slots, 0);
    if k > 0 {
        lemma_lap_state_range(params, slots, (k - 1) as nat);
    }
    let w = lap_week(slots, k as int);
    assert(0 <= w < SEASON_LENGTH);
    if params.varieties@.len() == 0 {
        assert(slots[w] as int >= 0);
    }
}

/// Each week's record of a valid plan names a variety of the catalog.
pub proof fn lemma_week_record_valid(params: Params, plan: Seq<usize>, bed: int, w: int)
    requires
        plan_valid(params, plan),
        0 <= bed < params.beds@.len(),
        0 <= w < SEASON_LENGTH,
    ensures
        (week_record(params, plan, bed, w).crop as int) < params.varieties@.len(),
        week_record(params, plan, bed, w).week == w,
        week_record(params, plan, bed, w).crop == 0 ==> week_record(params, plan, bed, w).harvestable_units == 0,
{
    let slots = bed_slots(plan, bed);
    assert((bed + 1) * SEASON_LENGTH <= params.beds@.len() * SEASON_LENGTH) by (nonlinear_arith)
        requires bed + 1 <= params.beds@.len();
    assert forall|i: int| 0 <= i < SEASON_LENGTH implies (#[trigger] slots[i] as int)
        < params.varieties@.len() by {
        assert(plan[bed * SEASON_LENGTH + i] == slots[i]);
    }
    lemma_lap_start_range(slots, 0);
    let k = lap_step(slots, w);
    lemma_lap_state_range(params, slots, k as nat);
    let s = lap_start(slots);
    assert((s + (w + 52 - s) % 52) % 52 == w) by {
        vstd::arithmetic::div_mod::lemma_fundamental_div_mod(w + 52 - s, 52);
        vstd::arithmetic::div_mod::lemma_mod_multiples_vanish((w + 52 - s) / 52, w, 52);
        vstd::arithmetic::div_mod::lemma_small_mod(w as nat, 52);
    }
}

/// A bed that is never planted has nothing growing in any week of its lap.
pub proof fn lemma_never_planted(params: Params, slots: Seq<usize>, k: nat)
    requires
        slots.len() == SEASON_LENGTH,
        forall|i: int| 0 <= i < SEASON_LENGTH ==> #[trigger] slots[i] == 0,
    ensures
        lap_state(params, slots, k).0 == 0,
        lap_record(params, slots, k).crop == 0,
        lap_record(params, slots, k).harvestable_units == 0,
    decreases k,
{
    lemma_lap_start_range(slots, 0);
    if k > 0 {
        lemma_never_planted(params, slots, (k - 1) as nat);
    }
    let w = lap_week(slots, k as int);
    assert(0 <= w < SEASON_LENGTH);
    assert(slots[w] == 0);
}

/// A crop planted at step `k0` of the lap is recorded as growing, `j` weeks
/// old, `j` steps later, while it is younger than its longevity, the lap has
/// not ended and no later planting pre-empted it.
pub proof fn lemma_planting_grows(params: Params, slots: Seq<usize>, k0: nat, j: nat)
    requires
        slots.len() == SEASON_LENGTH,
        k0 + j < SEASON_LENGTH,
        slots[lap_week(slots, k0 as int)] != 0,
        j < longevity_of(params, slots[lap_week(slots, k0 as int)] as int),
        forall|i: nat| 1 <= i <= j ==> #[trigger] slots[lap_week(slots, (k0 + i) as int)] == 0,
    ensures
        lap_state(params, slots, k0 + j) == (slots[lap_week(slots, k0 as int)] as int, j as int),
        lap_record(params, slots, k0 + j).crop == slots[lap_week(slots, k0 as int)],
        lap_record(params, slots, k0 + j).crop_age == j,
    decreases j,
{
    let v = slots[lap_week(slots, k0 as int)] as int;
    if j > 0 {
        assert forall|i: nat| 1 <= i <= j - 1 implies #[trigger] slots[lap_week(
            slots,
            (k0 + i) as int,
        )] == 0 by {
            assert(1 <= i <= j);
        }
        lemma_planting_grows(params, slots, k0, (j - 1) as nat);
        assert(slots[lap_week(slots, (k0 + j) as int)] == 0);
        assert(((k0 + j) - 1) as nat == k0 + (j - 1) as nat);
    }
}

/// A planting at week `w` shows that variety growing at each of the next
/// weeks `(w + j) % 52`, aged `j`, while younger than its longevity, before
/// the lap's end and before any later planting.
pub proof fn lemma_planting_occupies_weeks(params: Params, slots: Seq<usize>, w: int, j: nat)
    requires
        slots.len() == SEASON_LENGTH,
        0 <= w < SEASON_LENGTH,
        slots[w] != 0,
        j < longevity_of(params, slots[w] as int),
        lap_step(slots, w) + j < SEASON_LENGTH,
        forall|i: int| 1 <= i <= j ==> #[trigger] slots[(w + i) % (SEASON_LENGTH as int)] == 0,
    ensures
        lap_record(params, slots, (lap_step(slots, w) + j) as nat).week == (w + j) % (
        SEASON_LENGTH as int),
        lap_record(params, slots, (lap_step(slots, w) + j) as nat).crop == slots[w],
        lap_record(params, slots, (lap_step(slots, w) + j) as nat).crop_age == j,
{
    lemma_lap_start_range(slots, 0);
    let s = lap_start(slots);
    let k0 = lap_step(slots, w);
    assert(0 <= k0 < SEASON_LENGTH);
    assert forall|i: int| 0 <= i implies #[trigger] lap_week(slots, k0 + i) == (w + i) % (
    SEASON_LENGTH as int) by {
        {
            assert((s + ((w + 52 - s) % 52) + i) % 52 == (w + i) % 52) by {
                vstd::arithmetic::div_mod::lemma_mod_bound(w + 52 - s, 52);
                vstd::arithmetic::div_mod::lemma_fundamental_div_mod(w + 52 - s, 52);
                vstd::arithmetic::div_mod::lemma_mod_multiples_vanish(
                    (w + 52 - s) / 52,
                    w + i,
                    52,
                );
            }
        }
    }
    assert(lap_week(slots, k0 + 0) == w);
    assert forall|i: nat| 1 <= i <= j implies #[trigger] slots[lap_week(slots, (k0 + i) as int)]
        == 0 by {
        assert(lap_week(slots, k0 + i) == (w + i) % 52);
    }
    lemma_planting_grows(params, slots, k0 as nat, j);
    assert(lap_week(slots, k0 + j) == (w + j) % 52);
}

/// For every plan and bed: a planting at week `w` shows that variety growing
/// in week `(w + j) % 52`, aged `j`, for each `j` below its longevity, until
/// a later planting pre-empts it or the lap over the bed ends.
pub proof fn lemma_planting_shows_growing(params: Params, plan: Seq<usize>, bed: int, w: int, j: nat)
    requires
        0 <= bed,
        (bed + 1) * SEASON_LENGTH <= plan.len(),
        0 <= w < SEASON_LENGTH,
        bed_slots(plan, bed)[w] != 0,
        j < longevity_of(params, bed_slots(plan, bed)[w] as int),
        lap_step(bed_slots(plan, bed), w) + j < SEASON_LENGTH,
        forall|i: int|
            1 <= i <= j ==> #[trigger] bed_slots(plan, bed)[(w + i) % (SEASON_LENGTH as int)] == 0,
    ensures
        week_record(params, plan, bed, (w + j) % (SEASON_LENGTH as int)).crop == bed_slots(plan, bed)[w],
        week_record(params, plan, bed, (w + j) % (SEASON_LENGTH as int)).crop_age == j,
{
    let slots = bed_slots(plan, bed);
    lemma_lap_start_range(slots, 0);
    lemma_planting_occupies_weeks(params, slots, w, j);
    let s = lap_start(slots);
    let k = lap_step(slots, w) + j;
    let x = (w + j) % 52;
    assert((s + k) % 52 == x);
    assert(lap_step(slots, x) == k) by {
        vstd::arithmetic::div_mod::lemma_fundamental_div_mod(s + k, 52);
        vstd::arithmetic::div_mod::lemma_mod_multiples_vanish(-((s + k) / 52), k + 52, 52);
        vstd::arithmetic::div_mod::lemma_small_mod(k as nat, 52);
        vstd::arithmetic::div_mod::lemma_mod_add_multiples_vanish(k, 52);
    }
}

/// The records of a whole lap over `slots`, in lap order.
pub open spec fn lap_records(params: Params, slots: Seq<usize>) -> Seq<BedWeek> {
    Seq::new(SEASON_LENGTH as nat, |k: int| lap_record(params, slots, k as nat))
}

/// A never-planted bed decodes to records that all have nothing growing, so
/// none of its weeks is occupied.
pub proof fn lemma_never_planted_unoccupied(params: Params, slots: Seq<usize>)
    requires
        slots.len() == SEASON_LENGTH,
        forall|i: int| 0 <= i < SEASON_LENGTH ==> #[trigger] slots[i] == 0,
    ensures
        forall|k: int|
            0 <= k < SEASON_LENGTH ==> (#[trigger] lap_records(params, slots)[k]).crop == 0
                && lap_records(params, slots)[k].harvestable_units == 0,
        occupied_count(lap_records(params, slots), SEASON_LENGTH as nat) == 0,
{
    let records = lap_records(params, slots);
    assert forall|k: int| 0 <= k < SEASON_LENGTH implies (#[trigger] records[k]).crop == 0
        && records[k].harvestable_units == 0 by {
        lemma_never_planted(params, slots, k as nat);
    }
    lemma_occupied_none(records, SEASON_LENGTH as nat);
}

proof fn lemma_occupied_none(records: Seq<BedWeek>, n: nat)
    requires
        n <= records.len(),
        forall|k: int| 0 <= k < n ==> (#[trigger] records[k]).crop == 0,
    ensures
        occupied_count(records, n) == 0,
    decreases n,
{
    if n > 0 {
        lemma_occupied_none(records, (n - 1) as nat);
    }
}

/// One bed of a plan, decoded for a whole lap of the season.
pub struct BedPlan {
    bed: usize,
    start: usize,
    records: Vec<BedWeek>,
}

impl View for BedPlan {
    type V = Seq<BedWeek>;

    closed spec fn view(&self) -> Seq<BedWeek> {
        self.records@
    }
}

impl BedPlan {
    /// The bed this plan decodes.
    pub closed spec fn bed_spec(&self) -> int {
        self.bed as int
    }

    /// The week at which the lap starts.
    pub closed spec fn start_spec(&self) -> int {
        self.start as int
    }

    /// Decodes bed `bed` of the flat plan `genes`.
    pub fn new(bed: usize, genes: &Vec<usize>, params: &Params) -> (r: BedPlan)
        requires
            params.wf(),
            plan_valid(*params, genes@),
            bed < params.beds@.len(),
        ensures
            r@ == lap_records(*params, bed_slots(genes@, bed as int)),
            r.bed_spec() == bed,
            r.start_spec() == lap_start(bed_slots(genes@, bed as int)),
            0 <= r.start_spec() < SEASON_LENGTH,
            records_valid(*params, r@),
    {
        let ghost slots = bed_slots(genes@, bed as int);
        assert((bed + 1) * SEASON_LENGTH <= params.beds@.len() * SEASON_LENGTH) by (nonlinear_arith)
            requires bed + 1 <= params.beds@.len();
        let base: usize = bed * SEASON_LENGTH;
        let len = genes.len();
        assert forall|i: int| 0 <= i < SEASON_LENGTH implies (#[trigger] slots[i] as int)
            < params.varieties@.len() by {
            assert(genes@[base + i] == slots[i]);
        }
        let mut start: usize = 0;
        while start < SEASON_LENGTH && genes[base + start] == 0
            invariant
                start <= SEASON_LENGTH,
                base + SEASON_LENGTH <= genes@.len(),
                genes@.len() == len,
                slots == genes@.subrange(base as int, base + SEASON_LENGTH),
                lap_start(slots) == first_planting_from(slots, start as int),
            decreases SEASON_LENGTH - start,
        {
            assert(genes@[base + start] == slots[start as int]);
            start = start + 1;
        }
        if start == SEASON_LENGTH {
            start = 0;
        } else {
            assert(genes@[base + start] == slots[start as int]);
        }
        assert(start == lap_start(slots));
        let mut records: Vec<BedWeek> = Vec::new();
        let mut crop: usize = 0;
        let mut age: usize = 0;
        let mut k: usize = 0;
        while k < SEASON_LENGTH
            invariant
                params.wf(),
                k <= SEASON_LENGTH,
                start < SEASON_LENGTH,
                start == lap_start(slots),
                base + SEASON_LENGTH <= genes@.len(),
                genes@.len() == len,
                slots == genes@.subrange(base as int, base + SEASON_LENGTH),
                forall|i: int| 0 <= i < SEASON_LENGTH ==> (#[trigger] slots[i] as int)
                    < params.varieties@.len(),
                age <= k,
                crop < params.varieties@.len(),
                k == 0 ==> crop == 0 && age == 0,
                k > 0 ==> crop == lap_state(*params, slots, (k - 1) as nat).0 && age
                    == lap_state(*params, slots, (k - 1) as nat).1 + 1,
                records@.len() == k,
                forall|j: int| 0 <= j < k ==> #[trigger] records@[j] == lap_record(*params, slots, j as nat),
                records_valid(*params, records@),
            decreases SEASON_LENGTH - k,
        {
            proof {
                if k > 0 {
                    lemma_lap_state_range(*params, slots, (k - 1) as nat);
                }
            }
            let week = (start + k) % SEASON_LENGTH;
            assert(genes@[base + week] == slots[week as int]);
            let slot = genes[base + week];
            if slot != 0 {
                crop = slot;
                age = 0;
            }
            let longevity = params.varieties[crop].harvest_schedule.len();
            if crop != 0 && age >= longevity {
                crop = 0;
                age = 0;
            }
            let units: u32 = if crop != 0 && age < longevity {
                params.varieties[crop].harvest_schedule[age]
            } else {
                0
            };
            let record = BedWeek { week, crop, crop_age: age, harvestable_units: units };
            assert(record == lap_record(*params, slots, k as nat));
            records.push(record);
            age = age + 1;
            k = k + 1;
        }
        assert(records@ =~= lap_records(*params, slots));
        BedPlan { bed, start, records }
    }

    /// The records of the lap, in lap order.
    pub fn iter(&self) -> (r: &Vec<BedWeek>)
        ensures
            r@ == self@,
    {
        &self.records
    }

    /// The record of week `week`.
    pub fn get_week(&self, week: usize) -> (r: BedWeek)
        requires
            week < SEASON_LENGTH,
            self@.len() == SEASON_LENGTH,
            0 <= self.start_spec() < SEASON_LENGTH,
        ensures
            r == self@[(week + SEASON_LENGTH - self.start_spec()) % (SEASON_LENGTH as int)],
    {
        self.records[(week + SEASON_LENGTH - self.start) % SEASON_LENGTH]
    }

    /// Number of weeks in which something grows.
    pub fn occupied_weeks(&self) -> (r: usize)
        ensures
            r == occupied_count(self@, self@.len()),
    {
        let mut n: usize = 0;
        let mut k: usize = 0;
        while k < self.records.len()
            invariant
                k <= self@.len(),
                n == occupied_count(self@, k as nat),
                n <= k,
            decreases self@.len() - k,
        {
            if self.records[k].crop != 0 {
                n = n + 1;
            }
            k = k + 1;
        }
        n
    }
}

/// The template registered for week offset `offset`, the first one if
/// several are.
pub open spec fn template_at(instructions: Seq<(i32, String)>, offset: int) -> Option<Seq<char>>
    decreases instructions.len(),
{
    if instructions.len() == 0 {
        None
    } else if instructions[0].0 == offset {
        Some(instructions[0].1@)
    } else {
        template_at(instructions.subrange(1, instructions.len() as int), offset)
    }
}

/// The label of a planting: bed name, a dash, and the planting week.
pub open spec fn label_of(bed: Bed, week: int) -> Seq<char> {
    bed.name@ + seq!['-'] + decimal(week as nat)
}

/// A planting template with its tokens substituted.
pub open spec fn planting_text(template: Seq<char>, variety: Variety, bed: Bed, week: int) -> Seq<char> {
    replaced(
        replaced(
            replaced(template, "<variety>"@, variety.name@),
            "<label>"@,
            label_of(bed, week),
        ),
        "<bed>"@,
        bed.name@,
    )
}

/// A harvest template with its tokens substituted.
pub open spec fn harvest_text(template: Seq<char>, variety: Variety, bed: Bed, week: int, units: nat) -> Seq<char> {
    replaced(
        replaced(
            replaced(
                replaced(template, "<variety>"@, variety.name@),
                "<label>"@,
                label_of(bed, week),
            ),
            "<units>"@,
            decimal(units),
        ),
        "<bed>"@,
        bed.name@,
    )
}

/// The planting tasks of a planting at `week`, for the offsets in
/// `[-52, offset)`, in order of offset; each filed under `week + offset`
/// taken round the season.
pub open spec fn planting_tasks(variety: Variety, bed: Bed, week: int, offset: int) -> Seq<(int, Seq<char>)>
    decreases offset + SEASON_LENGTH,
{
    if offset <= -(SEASON_LENGTH as int) {
        Seq::empty()
    } else {
        let before = planting_tasks(variety, bed, week, offset - 1);
        match template_at(variety.instructions@, offset - 1) {
            Some(t) => before.push(
                ((week + offset - 1) % (SEASON_LENGTH as int), planting_text(t, variety, bed, week)),
            ),
            None => before,
        }
    }
}

/// The tasks of one record: those of a planting when the record starts a
/// crop, then the harvest task when it yields.
pub open spec fn record_tasks(params: Params, bed: int, record: BedWeek) -> Seq<(int, Seq<char>)> {
    let variety = params.varieties@[record.crop as int];
    let b = params.beds@[bed];
    let planting = if record.crop != 0 && record.crop_age == 0 {
        planting_tasks(variety, b, record.week as int, SEASON_LENGTH as int)
    } else {
        Seq::empty()
    };
    let harvest = match variety.harvest_instruction {
        Some(t) => if record.harvestable_units != 0 {
            seq![
                (
                    record.week as int,
                    harvest_text(t@, variety, b, record.week as int, record.harvestable_units as nat),
                ),
            ]
        } else {
            Seq::empty()
        },
        None => Seq::empty(),
    };
    planting + harvest
}

/// The tasks of the first `n` records, in order.
pub open spec fn records_tasks(params: Params, bed: int, records: Seq<BedWeek>, n: nat) -> Seq<
    (int, Seq<char>),
>
    decreases n,
{
    if n == 0 {
        Seq::empty()
    } else {
        records_tasks(params, bed, records, (n - 1) as nat) + record_tasks(params, bed, records[n - 1])
    }
}

/// Every record names a variety of the catalog and a week of the season.
pub open spec fn records_valid(params: Params, records: Seq<BedWeek>) -> bool {
    forall|k: int|
        0 <= k < records.len() ==> (#[trigger] records[k]).week < SEASON_LENGTH && (records[k].crop as int)
            < params.varieties@.len()
}

/// Index of the first template registered for `offset`.
fn find_template(instructions: &Vec<(i32, String)>, offset: i32) -> (r: Option<usize>)
    ensures
        match r {
            Some(i) => i < instructions@.len() && template_at(instructions@, offset as int) == Some(
                instructions@[i as int].1@,
            ),
            None => template_at(instructions@, offset as int).is_none(),
        },
{
    let mut i: usize = 0;
    assert(instructions@.subrange(0, instructions@.len() as int) =~= instructions@);
    while i < instructions.len()
        invariant
            i <= instructions@.len(),
            template_at(instructions@, offset as int) == template_at(
                instructions@.subrange(i as int, instructions@.len() as int),
                offset as int,
            ),
        decreases instructions@.len() - i,
    {
        let ghost rest = instructions@.subrange(i as int, instructions@.len() as int);
        if instructions[i].0 == offset {
            return Some(i);
        }
        assert(rest.subrange(1, rest.len() as int) =~= instructions@.subrange(
            i + 1,
            instructions@.len() as int,
        ));
        i = i + 1;
    }
    None
}

/// Files the planting tasks of `variety` planted at `week` in `bed`.
fn write_planting_instructions(variety: &Variety, bed: &Bed, week: usize, tasks: &mut Tasks)
    requires
        week < SEASON_LENGTH,
        old(tasks)@.len() == SEASON_LENGTH,
    ensures
        final(tasks)@ == file_tasks(
            old(tasks)@,
            planting_tasks(*variety, *bed, week as int, SEASON_LENGTH as int),
        ),
        final(tasks)@.len() == SEASON_LENGTH,
{
    proof {
        reveal_strlit("<variety>");
        reveal_strlit("<label>");
        reveal_strlit("<bed>");
    }
    let label = label_text(&bed.name, week);
    let mut offset: i32 = -52;
    while offset < 52
        invariant
            -52 <= offset <= 52,
            week < SEASON_LENGTH,
            label@ == label_of(*bed, week as int),
            tasks@.len() == SEASON_LENGTH,
            tasks@ == file_tasks(old(tasks)@, planting_tasks(*variety, *bed, week as int, offset as int)),
        decreases 52 - offset,
    {
        proof {
            reveal_strlit("<variety>");
            reveal_strlit("<label>");
            reveal_strlit("<bed>");
        }
        let ghost before = planting_tasks(*variety, *bed, week as int, offset as int);
        match find_template(&variety.instructions, offset) {
            Some(i) => {
                let template = &variety.instructions[i].1;
                let with_variety = replace_all(template.as_str(), "<variety>", variety.name.as_str());
                let with_label = replace_all(with_variety.as_str(), "<label>", label.as_str());
                let instruction = replace_all(with_label.as_str(), "<bed>", bed.name.as_str());
                let target = ((week as i32 + offset + 52) % 52) as usize;
                proof {
                    assert(((week + offset + 52) % 52) == (week + offset) % 52);
                    lemma_file_tasks_push(
                        old(tasks)@,
                        before,
                        (target as int, instruction@),
                    );
                }
                tasks.add(target, &instruction);
            },
            None => {},
        }
        offset = offset + 1;
    }
}

impl BedPlan {
    /// Files the tasks of every record of this bed, in lap order.
    pub fn write_instructions(&self, params: &Params, tasks: &mut Tasks)
        requires
            self.bed_spec() < params.beds@.len(),
            records_valid(*params, self@),
            old(tasks)@.len() == SEASON_LENGTH,
        ensures
            final(tasks)@ == file_tasks(
                old(tasks)@,
                records_tasks(*params, self.bed_spec(), self@, self@.len()),
            ),
    {
        proof {
            reveal_strlit("<variety>");
            reveal_strlit("<label>");
            reveal_strlit("<units>");
            reveal_strlit("<bed>");
        }
        let bed = &params.beds[self.bed];
        let mut k: usize = 0;
        while k < self.records.len()
            invariant
                k <= self@.len(),
                self.bed_spec() < params.beds@.len(),
                *bed == params.beds@[self.bed_spec()],
                records_valid(*params, self@),
                tasks@.len() == SEASON_LENGTH,
                tasks@ == file_tasks(old(tasks)@, records_tasks(*params, self.bed_spec(), self@, k as nat)),
            decreases self@.len() - k,
        {
            proof {
                reveal_strlit("<variety>");
                reveal_strlit("<label>");
                reveal_strlit("<units>");
                reveal_strlit("<bed>");
            }
            let record = self.records[k];
            let variety = &params.varieties[record.crop];
            let ghost done = records_tasks(*params, self.bed_spec(), self@, k as nat);
            let ghost mid = file_tasks(old(tasks)@, done);
            let ghost planting = if record.crop != 0 && record.crop_age == 0 {
                planting_tasks(*variety, *bed, record.week as int, SEASON_LENGTH as int)
            } else {
                Seq::empty()
            };
            if record.crop != 0 && record.crop_age == 0 {
                write_planting_instructions(variety, bed, record.week, tasks);
            } else {
                assert(file_tasks(mid, planting) == mid);
            }
            proof {
                lemma_file_tasks_concat(old(tasks)@, done, planting);
                lemma_file_tasks_len(mid, planting);
            }
            let ghost after_planting = done + planting;
            match &variety.harvest_instruction {
                Some(template) => {
                    if record.harvestable_units != 0 {
                        let label = label_text(&bed.name, record.week);
                        let units = decimal_text(record.harvestable_units as u64);
                        let with_variety = replace_all(template.as_str(), "<variety>", variety.name.as_str());
                        let with_label = replace_all(with_variety.as_str(), "<label>", label.as_str());
                        let with_units = replace_all(with_label.as_str(), "<units>", units.as_str());
                        let instruction = replace_all(with_units.as_str(), "<bed>", bed.name.as_str());
                        proof {
                            lemma_file_tasks_push(old(tasks)@, after_planting, (record.week as int, instruction@));
                        }
                        tasks.add(record.week, &instruction);
                        proof {
                            assert(after_planting.push((record.week as int, instruction@)) =~= done
                                + record_tasks(*params, self.bed_spec(), record));
                        }
                    } else {
                        assert(after_planting =~= done + record_tasks(*params, self.bed_spec(), record));
                    }
                },
                None => {
                    assert(after_planting =~= done + record_tasks(*params, self.bed_spec(), record));
                },
            }
            k = k + 1;
        }
    }
}

} // verus!
