//! The read-only catalogs of a planning run: beds, crop varieties and the
//! weekly target baskets.

use vstd::prelude::*;
use crate::basket::Basket;
use crate::schedule::ConfigError;
use crate::season::{SEASON_LENGTH, MAX_BEDS, MAX_CATEGORIES};

verus! {

/// A growing bed and the capability tags it offers.
pub struct Bed {
    pub name: String,
    pub properties: Vec<String>,
}

/// A crop variety: when it may be planted, what it yields week by week after
/// planting, what it needs from a bed, and its task templates.
pub struct Variety {
    pub name: String,
    /// One flag per week of the season: may it be planted that week.
    pub planting_schedule: Vec<bool>,
    /// Harvestable units by age in weeks; its length is the longevity.
    pub harvest_schedule: Vec<u32>,
    /// Capability tags that a bed must offer.
    pub requirements: Vec<String>,
    /// Index of the basket category the harvest counts towards.
    pub basket_category: usize,
    /// Task templates keyed by week offset from planting.
    pub instructions: Vec<(i32, String)>,
    /// Task template for each harvest week.
    pub harvest_instruction: Option<String>,
}

/// Does `tags` hold a string equal to `tag`.
pub open spec fn has_tag(tags: Seq<String>, tag: String) -> bool {
    exists|j: int| 0 <= j < tags.len() && #[trigger] tags[j]@ == tag@
}

/// Does `bed` offer every tag that `variety` requires.
pub open spec fn requirements_met(variety: Variety, bed: Bed) -> bool {
    forall|i: int|
        0 <= i < variety.requirements@.len() ==> has_tag(
            bed.properties@,
            #[trigger] variety.requirements@[i],
        )
}

/// Can a planting of `variety` at some allowed week yield in `week` (taken
/// round the season).
pub open spec fn harvestable_in_week(variety: Variety, week: int) -> bool {
    exists|p: int, g: int|
        0 <= p < SEASON_LENGTH && 0 <= g < variety.harvest_schedule@.len()
            && #[trigger] variety.planting_schedule@[p] && #[trigger] variety.harvest_schedule@[g] != 0
            && (p + g) % (SEASON_LENGTH as int) == week % (SEASON_LENGTH as int)
}

impl Variety {
    /// Weeks the crop occupies a bed once planted.
    pub open spec fn longevity(&self) -> nat {
        self.harvest_schedule@.len()
    }

    /// The synthetic variety that an empty slot stands for: never plantable,
    /// yields nothing.
    pub fn empty() -> (r: Variety)
        ensures
            r.planting_schedule@ == Seq::new(SEASON_LENGTH as nat, |_w: int| false),
            r.harvest_schedule@.len() == 0,
            r.requirements@.len() == 0,
            r.instructions@.len() == 0,
            r.harvest_instruction.is_none(),
            r.basket_category == 0,
    {
        Variety {
            name: String::new(),
            planting_schedule: weekly_flags(false),
            harvest_schedule: Vec::new(),
            requirements: Vec::new(),
            basket_category: 0,
            instructions: Vec::new(),
            harvest_instruction: None,
        }
    }

    /// A variety plantable in every week, with no yield, that requires `reqs`.
    pub fn dummy(name: &str, reqs: Vec<&str>) -> (r: Variety)
        ensures
            r.name@ == name@,
            r.planting_schedule@ == Seq::new(SEASON_LENGTH as nat, |_w: int| true),
            r.harvest_schedule@.len() == 0,
            r.requirements@.len() == reqs@.len(),
            forall|i: int| 0 <= i < reqs@.len() ==> r.requirements@[i]@ == reqs@[i]@,
            r.basket_category == 0,
    {
        let mut requirements: Vec<String> = Vec::new();
        let mut i: usize = 0;
        while i < reqs.len()
            invariant
                i <= reqs@.len(),
                requirements@.len() == i,
                forall|k: int| 0 <= k < i ==> requirements@[k]@ == reqs@[k]@,
            decreases reqs@.len() - i,
        {
            requirements.push(reqs[i].to_owned());
            i = i + 1;
        }
        Variety {
            name: name.to_owned(),
            planting_schedule: weekly_flags(true),
            harvest_schedule: Vec::new(),
            requirements,
            basket_category: 0,
            instructions: Vec::new(),
            harvest_instruction: None,
        }
    }

    /// Weeks the crop occupies a bed once planted.
    pub fn get_longevity(&self) -> (r: usize)
        ensures
            r == self.longevity(),
    {
        self.harvest_schedule.len()
    }

    /// Can a planting at some allowed week yield in `week` (taken round the
    /// season).
    pub fn is_harvestable_in_week(&self, week: usize) -> (r: bool)
        requires
            self.planting_schedule@.len() == SEASON_LENGTH,
        ensures
            r == harvestable_in_week(*self, week as int),
    {
        let target = week % SEASON_LENGTH;
        let longevity = self.harvest_schedule.len();
        let mut p: usize = 0;
        while p < SEASON_LENGTH
            invariant
                p <= SEASON_LENGTH,
                self.planting_schedule@.len() == SEASON_LENGTH,
                longevity == self.harvest_schedule@.len(),
                target == week % SEASON_LENGTH,
                forall|q: int, g: int|
                    0 <= q < p && 0 <= g < longevity ==> !(#[trigger] self.planting_schedule@[q]
                        && #[trigger] self.harvest_schedule@[g] != 0 && (q + g) % (SEASON_LENGTH as int)
                        == target),
            decreases SEASON_LENGTH - p,
        {
            if self.planting_schedule[p] {
                let mut g: usize = 0;
                while g < longevity
                    invariant
                        p < SEASON_LENGTH,
                        g <= longevity,
                        self.planting_schedule@.len() == SEASON_LENGTH,
                        self.planting_schedule@[p as int],
                        longevity == self.harvest_schedule@.len(),
                        target == week % SEASON_LENGTH,
                        forall|h: int|
                            0 <= h < g ==> !(#[trigger] self.harvest_schedule@[h] != 0 && (p + h) % (
                            SEASON_LENGTH as int) == target),
                    decreases longevity - g,
                {
                    proof {
                        vstd::arithmetic::div_mod::lemma_add_mod_noop(p as int, g as int, 52);
                        vstd::arithmetic::div_mod::lemma_small_mod(p as nat, 52);
                    }
                    if self.harvest_schedule[g] != 0 && (p + g % SEASON_LENGTH) % SEASON_LENGTH == target {
                        assert(self.planting_schedule@[p as int] && self.harvest_schedule@[g as int] != 0);
                        return true;
                    }
                    g = g + 1;
                }
            }
            p = p + 1;
        }
        false
    }

    /// Does `bed` offer every tag this variety requires.
    pub fn are_requirements_met(&self, bed: &Bed) -> (r: bool)
        ensures
            r == requirements_met(*self, *bed),
    {
        let mut i: usize = 0;
        while i < self.requirements.len()
            invariant
                i <= self.requirements@.len(),
                forall|k: int|
                    0 <= k < i ==> has_tag(bed.properties@, #[trigger] self.requirements@[k]),
            decreases self.requirements@.len() - i,
        {
            if !contains_string(&bed.properties, &self.requirements[i]) {
                return false;
            }
            i = i + 1;
        }
        true
    }
}

/// A season's worth of `value`.
fn weekly_flags(value: bool) -> (r: Vec<bool>)
    ensures
        r@ == Seq::new(SEASON_LENGTH as nat, |_w: int| value),
{
    let mut r: Vec<bool> = Vec::new();
    let mut w: usize = 0;
    while w < SEASON_LENGTH
        invariant
            w <= SEASON_LENGTH,
            r@ == Seq::new(w as nat, |_w: int| value),
        decreases SEASON_LENGTH - w,
    {
        r.push(value);
        w = w + 1;
        assert(r@ =~= Seq::new(w as nat, |_w: int| value));
    }
    r
}

/// Does `list` hold a string equal to `s`.
fn contains_string(list: &Vec<String>, s: &String) -> (r: bool)
    ensures
        r == has_tag(list@, *s),
{
    let mut j: usize = 0;
    while j < list.len()
        invariant
            j <= list@.len(),
            forall|k: int| 0 <= k < j ==> #[trigger] list@[k]@ != s@,
        decreases list@.len() - j,
    {
        if list[j] == *s {
            return true;
        }
        j = j + 1;
    }
    false
}

/// Task templates with distinct offsets, all in `[-52, 52)`.
pub open spec fn instructions_distinct(instructions: Seq<(i32, String)>) -> bool {
    &&& forall|i: int|
        0 <= i < instructions.len() ==> -52 <= (#[trigger] instructions[i]).0 < SEASON_LENGTH
    &&& forall|i: int, j: int|
        0 <= i < j < instructions.len() ==> (#[trigger] instructions[i]).0 != (
        #[trigger] instructions[j]).0
}

/// Variety `v` of a catalog with `num_categories` categories is as `wf` asks.
pub open spec fn variety_fits(variety: Variety, v: int, num_categories: nat) -> bool {
    &&& variety.planting_schedule@.len() == SEASON_LENGTH
    &&& instructions_distinct(variety.instructions@)
    &&& v != 0 ==> variety.basket_category < num_categories && variety.harvest_schedule@.len() > 0
    &&& v == 0 ==> variety.harvest_schedule@.len() == 0 && forall|w: int|
        0 <= w < SEASON_LENGTH ==> !#[trigger] variety.planting_schedule@[w]
}

/// Does `variety`, at index `v`, fit a catalog of `num_categories` categories.
fn check_variety(variety: &Variety, v: usize, num_categories: usize) -> (r: bool)
    ensures
        r == (variety.planting_schedule@.len() == SEASON_LENGTH && variety_fits(
            *variety,
            v as int,
            num_categories as nat,
        )),
{
    if variety.planting_schedule.len() != SEASON_LENGTH {
        return false;
    }
    if v == 0 {
        if variety.harvest_schedule.len() != 0 {
            return false;
        }
        let mut w: usize = 0;
        while w < SEASON_LENGTH
            invariant
                w <= SEASON_LENGTH,
                v == 0,
                variety.planting_schedule@.len() == SEASON_LENGTH,
                forall|k: int| 0 <= k < w ==> !#[trigger] variety.planting_schedule@[k],
            decreases SEASON_LENGTH - w,
        {
            if variety.planting_schedule[w] {
                assert(variety.planting_schedule@[w as int]);
                assert(!(forall|k: int| 0 <= k < SEASON_LENGTH ==> !#[trigger] variety.planting_schedule@[k]));
                return false;
            }
            w = w + 1;
        }
    } else if variety.basket_category >= num_categories || variety.harvest_schedule.len() == 0 {
        return false;
    }
    let mut i: usize = 0;
    while i < variety.instructions.len()
        invariant
            i <= variety.instructions@.len(),
            forall|k: int| 0 <= k < i ==> -52 <= (#[trigger] variety.instructions@[k]).0 < SEASON_LENGTH,
            forall|k: int, j: int|
                0 <= k < j < variety.instructions@.len() && k < i ==> (#[trigger] variety.instructions@[k]).0 != (
                #[trigger] variety.instructions@[j]).0,
        decreases variety.instructions@.len() - i,
    {
        let offset = variety.instructions[i].0;
        if offset < -52 || offset >= 52 {
            assert(!(-52 <= variety.instructions@[i as int].0 < SEASON_LENGTH));
            assert(!instructions_distinct(variety.instructions@));
            return false;
        }
        let mut j: usize = i + 1;
        while j < variety.instructions.len()
            invariant
                i < j <= variety.instructions@.len(),
                offset == variety.instructions@[i as int].0,
                forall|x: int| i < x < j ==> (#[trigger] variety.instructions@[x]).0 != offset,
            decreases variety.instructions@.len() - j,
        {
            if variety.instructions[j].0 == offset {
                assert(variety.instructions@[i as int].0 == variety.instructions@[j as int].0);
                assert(!instructions_distinct(variety.instructions@));
                return false;
            }
            j = j + 1;
        }
        i = i + 1;
    }
    true
}

/// Adding `quantity` of `category` to the baskets of weeks `start..end`
/// stays within the season, the baskets and `i64`.
pub open spec fn demand_fits(baskets: Seq<Basket>, start: int, end: int, category: int, quantity: int) -> bool {
    &&& 0 <= start <= end <= baskets.len()
    &&& forall|w: int|
        start <= w < end ==> 0 <= category < (#[trigger] baskets[w])@.len() && i64::MIN <= baskets[w]@[category]
            + quantity <= i64::MAX
}

/// `after` is `before` with `quantity` of `category` added to the baskets of
/// weeks `start..end`.
pub open spec fn demand_added(before: Seq<Basket>, after: Seq<Basket>, start: int, end: int, category: int, quantity: int) -> bool {
    &&& after.len() == before.len()
    &&& forall|w: int|
        0 <= w < before.len() ==> (#[trigger] after[w])@ == if start <= w < end {
            before[w]@.update(category, (before[w]@[category] + quantity) as i64)
        } else {
            before[w]@
        }
}

/// Index of the first string in `list` equal to `s`.
fn position_of(list: &Vec<String>, s: &String) -> (r: Option<usize>)
    ensures
        match r {
            Some(i) => i < list@.len() && list@[i as int]@ == s@ && forall|k: int|
                0 <= k < i ==> #[trigger] list@[k]@ != s@,
            None => forall|k: int| 0 <= k < list@.len() ==> #[trigger] list@[k]@ != s@,
        },
{
    let mut j: usize = 0;
    while j < list.len()
        invariant
            j <= list@.len(),
            forall|k: int| 0 <= k < j ==> #[trigger] list@[k]@ != s@,
        decreases list@.len() - j,
    {
        if list[j] == *s {
            return Some(j);
        }
        j = j + 1;
    }
    None
}

/// All the catalogs of one planning run.
pub struct Params {
    pub beds: Vec<Bed>,
    /// Index 0 is the empty variety that slot value 0 denotes.
    pub varieties: Vec<Variety>,
    /// The target basket of each week of the season.
    pub baskets: Vec<Basket>,
    pub basket_category_names: Vec<String>,
}

impl Params {
    pub open spec fn num_beds_spec(&self) -> nat {
        self.beds@.len()
    }

    pub open spec fn num_varieties(&self) -> nat {
        self.varieties@.len()
    }

    pub open spec fn num_categories(&self) -> nat {
        self.basket_category_names@.len()
    }

    /// Number of slots of a plan over these catalogs.
    pub open spec fn genome_len(&self) -> nat {
        self.beds@.len() * SEASON_LENGTH as nat
    }

    /// Every bed count fits and every variety has a planting flag for each
    /// week of the season.
    pub open spec fn shaped(&self) -> bool {
        &&& self.beds@.len() <= MAX_BEDS
        &&& forall|v: int|
            0 <= v < self.varieties@.len() ==> (#[trigger] self.varieties@[v]).planting_schedule@.len()
                == SEASON_LENGTH
    }

    /// The catalogs fit together: they are shaped; variety 0 is the empty
    /// variety (never plantable, no yield curve); every other variety has a
    /// known category and a yield curve of positive length; the task
    /// templates of every variety have distinct offsets in `[-52, 52)`; every
    /// week has a target basket over all categories.
    pub open spec fn wf(&self) -> bool {
        &&& self.shaped()
        &&& self.varieties@.len() >= 1
        &&& self.basket_category_names@.len() <= MAX_CATEGORIES
        &&& self.baskets@.len() == SEASON_LENGTH
        &&& forall|w: int|
            0 <= w < SEASON_LENGTH ==> (#[trigger] self.baskets@[w])@.len()
                == self.basket_category_names@.len()
        &&& forall|v: int|
            0 <= v < self.varieties@.len() ==> variety_fits(
                #[trigger] self.varieties@[v],
                v,
                self.basket_category_names@.len(),
            )
    }

    /// Do the catalogs fit together (see `wf`).
    pub fn is_valid(&self) -> (r: bool)
        ensures
            r == self.wf(),
    {
        let num_categories = self.basket_category_names.len();
        if self.varieties.len() < 1 || self.beds.len() > MAX_BEDS || num_categories > MAX_CATEGORIES
            || self.baskets.len() != SEASON_LENGTH {
            return false;
        }
        let mut w: usize = 0;
        while w < SEASON_LENGTH
            invariant
                w <= SEASON_LENGTH,
                self.baskets@.len() == SEASON_LENGTH,
                num_categories == self.basket_category_names@.len(),
                forall|k: int| 0 <= k < w ==> (#[trigger] self.baskets@[k])@.len() == num_categories,
            decreases SEASON_LENGTH - w,
        {
            if self.baskets[w].len() != num_categories {
                return false;
            }
            w = w + 1;
        }
        let mut v: usize = 0;
        while v < self.varieties.len()
            invariant
                v <= self.varieties@.len(),
                num_categories == self.basket_category_names@.len(),
                forall|k: int|
                    0 <= k < v ==> (#[trigger] self.varieties@[k]).planting_schedule@.len()
                        == SEASON_LENGTH && variety_fits(self.varieties@[k], k, num_categories as nat),
            decreases self.varieties@.len() - v,
        {
            if !check_variety(&self.varieties[v], v, num_categories) {
                return false;
            }
            v = v + 1;
        }
        true
    }

    /// Adds `quantity` of `category` to the target basket of every week in
    /// `weeks`. Refused, with nothing changed, when the weeks leave the
    /// season, the category or a basket is unknown, or a sum would overflow.
    pub fn add_target_demand(&mut self, weeks: std::ops::Range<usize>, category: usize, quantity: i64) -> (r:
        Result<(), ConfigError>)
        ensures
            final(self).beds == old(self).beds,
            final(self).varieties == old(self).varieties,
            final(self).basket_category_names == old(self).basket_category_names,
            r.is_ok() <==> demand_fits(old(self).baskets@, weeks.start as int, weeks.end as int, category as int, quantity as int),
            r.is_ok() ==> demand_added(old(self).baskets@, final(self).baskets@, weeks.start as int, weeks.end as int, category as int, quantity as int),
            r.is_err() ==> final(self).baskets@ == old(self).baskets@,
            r matches Err(e) ==> e == ConfigError::InvalidDemand,
    {
        if !(weeks.start <= weeks.end && weeks.end <= self.baskets.len()) {
            return Err(ConfigError::InvalidDemand);
        }
        let mut w: usize = weeks.start;
        while w < weeks.end
            invariant
                weeks.start <= w <= weeks.end <= self.baskets@.len(),
                self.baskets == old(self).baskets,
                self.beds == old(self).beds,
                self.varieties == old(self).varieties,
                self.basket_category_names == old(self).basket_category_names,
                forall|x: int| weeks.start <= x < w ==> (category as int) < (#[trigger] self.baskets@[x])@.len()
                    && i64::MIN <= self.baskets@[x]@[category as int] + quantity <= i64::MAX,
            decreases weeks.end - w,
        {
            if category >= self.baskets[w].len() {
                return Err(ConfigError::InvalidDemand);
            }
            let current = self.baskets[w].get(category);
            if quantity > 0 && current > i64::MAX - quantity || quantity < 0 && current < i64::MIN - quantity {
                return Err(ConfigError::InvalidDemand);
            }
            w = w + 1;
        }
        let ghost before = self.baskets@;
        let mut w: usize = weeks.start;
        while w < weeks.end
            invariant
                weeks.start <= w <= weeks.end <= before.len(),
                self.beds == old(self).beds,
                self.varieties == old(self).varieties,
                self.basket_category_names == old(self).basket_category_names,
                self.baskets@.len() == before.len(),
                demand_fits(before, weeks.start as int, weeks.end as int, category as int, quantity as int),
                forall|x: int|
                    0 <= x < before.len() ==> (#[trigger] self.baskets@[x])@ == if weeks.start <= x < w {
                        before[x]@.update(category as int, (before[x]@[category as int] + quantity) as i64)
                    } else {
                        before[x]@
                    },
            decreases weeks.end - w,
        {
            self.baskets[w].add(category, quantity);
            w = w + 1;
        }
        Ok(())
    }

    /// Number of beds.
    pub fn num_beds(&self) -> (r: usize)
        ensures
            r == self.beds@.len(),
    {
        self.beds.len()
    }

    /// Number of slots of a plan over these catalogs.
    pub fn genome_size(&self) -> (r: usize)
        requires
            self.wf(),
        ensures
            r == self.genome_len(),
    {
        self.beds.len() * SEASON_LENGTH
    }

    /// Number of basket categories.
    pub fn get_num_basket_categories(&self) -> (r: usize)
        ensures
            r == self.basket_category_names@.len(),
    {
        self.basket_category_names.len()
    }

    /// Name of basket category `category`.
    pub fn get_basket_category_name(&self, category: usize) -> (r: &String)
        requires
            category < self.basket_category_names@.len(),
        ensures
            *r == self.basket_category_names@[category as int],
    {
        &self.basket_category_names[category]
    }

    /// Id of the category called `name`, registering it first if it is new.
    pub fn get_basket_category_id(&mut self, name: &String) -> (r: usize)
        ensures
            r < final(self).basket_category_names@.len(),
            final(self).basket_category_names@[r as int]@ == name@,
            final(self).beds == old(self).beds,
            final(self).varieties == old(self).varieties,
            final(self).baskets == old(self).baskets,
            (exists|k: int|
                0 <= k < old(self).basket_category_names@.len()
                    && #[trigger] old(self).basket_category_names@[k]@ == name@)
                ==> final(self).basket_category_names == old(self).basket_category_names,
            (forall|k: int|
                0 <= k < old(self).basket_category_names@.len()
                    ==> #[trigger] old(self).basket_category_names@[k]@ != name@)
                ==> final(self).basket_category_names@ == old(self).basket_category_names@.push(*name)
                    && r == old(self).basket_category_names@.len(),
    {
        match position_of(&self.basket_category_names, name) {
            Some(i) => i,
            None => {
                let r = self.basket_category_names.len();
                self.basket_category_names.push(name.clone());
                r
            },
        }
    }

    /// Index of the first bed called `name`.
    pub fn get_bed(&self, name: &String) -> (r: Option<usize>)
        ensures
            match r {
                Some(i) => i < self.beds@.len() && self.beds@[i as int].name@ == name@
                    && forall|k: int| 0 <= k < i ==> (#[trigger] self.beds@[k]).name@ != name@,
                None => forall|k: int|
                    0 <= k < self.beds@.len() ==> (#[trigger] self.beds@[k]).name@ != name@,
            },
    {
        let mut j: usize = 0;
        while j < self.beds.len()
            invariant
                j <= self.beds@.len(),
                forall|k: int| 0 <= k < j ==> (#[trigger] self.beds@[k]).name@ != name@,
            decreases self.beds@.len() - j,
        {
            if self.beds[j].name == *name {
                return Some(j);
            }
            j = j + 1;
        }
        None
    }
}

} // verus!
