use harvest::basket::Basket;
use harvest::bed_plan::{BedPlan, BedWeek};
use harvest::params::{Bed, Params, Variety};
use harvest::season::SEASON_LENGTH;

fn crop(name: &str, weeks: &[usize], yields: Vec<u32>, category: usize) -> Variety {
    let mut v = Variety::dummy(name, vec![]);
    for w in 0..SEASON_LENGTH {
        v.planting_schedule[w] = weeks.contains(&w);
    }
    v.harvest_schedule = yields;
    v.basket_category = category;
    v
}

fn catalog(num_beds: usize, varieties: Vec<Variety>) -> Params {
    let mut all = vec![Variety::empty()];
    all.extend(varieties);
    let mut baskets = Vec::new();
    for _ in 0..SEASON_LENGTH {
        baskets.push(Basket::new(1));
    }
    let mut beds = Vec::new();
    for b in 0..num_beds {
        beds.push(Bed { name: format!("b{}", b), properties: vec![] });
    }
    Params { beds, varieties: all, baskets, basket_category_names: vec![String::from("greens")] }
}

fn by_week(plan: &BedPlan) -> Vec<BedWeek> {
    let mut weeks = plan.iter().clone();
    weeks.sort_by_key(|r| r.week);
    weeks
}

#[test]
fn never_planted_bed_has_nothing_growing() {
    let params = catalog(2, vec![crop("kale", &[0], vec![1, 2], 0)]);
    let mut genes = vec![0; 2 * SEASON_LENGTH];
    genes[3] = 1;
    let plan = BedPlan::new(1, &genes, &params);
    assert_eq!(plan.iter().len(), SEASON_LENGTH);
    for r in plan.iter() {
        assert_eq!(r.get_growing_variety(), None);
        assert_eq!(r.harvestable_units, 0);
    }
    assert_eq!(plan.occupied_weeks(), 0);
    assert_eq!(plan.iter()[0].week, 0);
}

#[test]
fn single_planting_yields_along_its_curve() {
    let params = catalog(1, vec![crop("radish", &[0], vec![0, 5], 0)]);
    let mut genes = vec![0; SEASON_LENGTH];
    genes[0] = 1;
    let plan = BedPlan::new(0, &genes, &params);
    let weeks = by_week(&plan);
    assert_eq!(weeks[0].crop, 1);
    assert_eq!(weeks[0].crop_age, 0);
    assert_eq!(weeks[0].harvestable_units, 0);
    assert_eq!(weeks[1].crop, 1);
    assert_eq!(weeks[1].crop_age, 1);
    assert_eq!(weeks[1].harvestable_units, 5);
    assert_eq!(weeks[2].crop, 0);
    assert_eq!(weeks[2].harvestable_units, 0);
    assert_eq!(plan.occupied_weeks(), 2);
}

#[test]
fn planting_occupies_following_weeks_across_wraparound() {
    let params = catalog(1, vec![crop("leek", &[50], vec![1, 2, 3, 4], 0)]);
    let mut genes = vec![0; SEASON_LENGTH];
    genes[50] = 1;
    let plan = BedPlan::new(0, &genes, &params);
    let first = plan.iter()[0];
    assert_eq!(first.week, 50);
    let weeks = by_week(&plan);
    assert_eq!((weeks[50].crop, weeks[50].crop_age, weeks[50].harvestable_units), (1, 0, 1));
    assert_eq!((weeks[51].crop, weeks[51].crop_age, weeks[51].harvestable_units), (1, 1, 2));
    assert_eq!((weeks[0].crop, weeks[0].crop_age, weeks[0].harvestable_units), (1, 2, 3));
    assert_eq!((weeks[1].crop, weeks[1].crop_age, weeks[1].harvestable_units), (1, 3, 4));
    assert_eq!(weeks[2].crop, 0);
    assert_eq!(plan.occupied_weeks(), 4);
}

#[test]
fn later_planting_preempts_unfinished_crop() {
    let params = catalog(
        1,
        vec![crop("leek", &[10], vec![1, 1, 1, 1, 1], 0), crop("bean", &[12], vec![7, 8], 0)],
    );
    let mut genes = vec![0; SEASON_LENGTH];
    genes[10] = 1;
    genes[12] = 2;
    let plan = BedPlan::new(0, &genes, &params);
    let weeks = by_week(&plan);
    assert_eq!((weeks[11].crop, weeks[11].crop_age), (1, 1));
    assert_eq!((weeks[12].crop, weeks[12].crop_age, weeks[12].harvestable_units), (2, 0, 7));
    assert_eq!((weeks[13].crop, weeks[13].crop_age, weeks[13].harvestable_units), (2, 1, 8));
    assert_eq!(weeks[14].crop, 0);
    assert_eq!(weeks[12].get_planted_variety(), Some(2));
    assert_eq!(weeks[13].get_planted_variety(), None);
}

#[test]
fn planted_variety_requires_age_zero() {
    let r = BedWeek { week: 3, crop: 4, crop_age: 0, harvestable_units: 0 };
    assert_eq!(r.get_planted_variety(), Some(4));
    assert_eq!(r.get_growing_variety(), Some(4));
    let idle = BedWeek { week: 3, crop: 0, crop_age: 0, harvestable_units: 0 };
    assert_eq!(idle.get_planted_variety(), None);
    assert_eq!(idle.get_growing_variety(), None);
}
