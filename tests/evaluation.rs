use harvest::basket::Basket;
use harvest::evaluator::Evaluator;
use harvest::params::{Bed, Params, Variety};
use harvest::season::SEASON_LENGTH;
use harvest::tasks::Tasks;

fn crop(name: &str, weeks: &[usize], yields: Vec<u32>, category: usize) -> Variety {
    let mut v = Variety::dummy(name, vec![]);
    for w in 0..SEASON_LENGTH {
        v.planting_schedule[w] = weeks.contains(&w);
    }
    v.harvest_schedule = yields;
    v.basket_category = category;
    v
}

fn greens_catalog(demand: i64, varieties: Vec<Variety>) -> Params {
    let mut all = vec![Variety::empty()];
    all.extend(varieties);
    let mut baskets = Vec::new();
    for _ in 0..SEASON_LENGTH {
        let mut b = Basket::new(1);
        b.add(0, demand);
        baskets.push(b);
    }
    Params {
        beds: vec![Bed { name: String::from("b0"), properties: vec![] }],
        varieties: all,
        baskets,
        basket_category_names: vec![String::from("greens")],
    }
}

#[test]
fn shortfall_of_unmet_demand_over_the_season() {
    let params = greens_catalog(10, vec![]);
    let genes = vec![0; SEASON_LENGTH];
    let evaluator = Evaluator::new(&params, &genes);
    assert_eq!(evaluator.get_total_basket_shortfall(), 10 * 52);
    assert_eq!(evaluator.get_num_plantings(), 0);
    assert_eq!(evaluator.score(), -520);
}

#[test]
fn score_counts_plantings_and_surplus() {
    let params = greens_catalog(0, vec![crop("chard", &[0, 5], vec![0, 5, 5], 0)]);
    let mut genes = vec![0; SEASON_LENGTH];
    genes[0] = 1;
    genes[5] = 1;
    let evaluator = Evaluator::new(&params, &genes);
    let baskets = evaluator.get_baskets();
    assert_eq!(baskets.len(), SEASON_LENGTH);
    assert_eq!(baskets[1].get(0), 5);
    assert_eq!(baskets[2].get(0), 5);
    assert_eq!(baskets[6].get(0), 5);
    assert_eq!(baskets[3].get(0), 0);
    assert_eq!(evaluator.get_total_basket_shortfall(), 20);
    assert_eq!(evaluator.score(), -2 - 20);
}

#[test]
fn degenerate_catalog_scores_zero() {
    let params = Params {
        beds: vec![],
        varieties: vec![Variety::empty()],
        baskets: (0..SEASON_LENGTH).map(|_| Basket::new(0)).collect(),
        basket_category_names: vec![],
    };
    assert!(params.is_valid());
    let genes: Vec<usize> = vec![];
    assert_eq!(Evaluator::new(&params, &genes).score(), 0);
}

#[test]
fn difference_is_symmetric() {
    let mut a = Basket::new(2);
    let mut b = Basket::new(2);
    a.add(0, 7);
    a.add(1, -3);
    b.add(0, 2);
    b.add(1, 4);
    assert_eq!(a.shortfall(&b, 0), 5);
    assert_eq!(b.shortfall(&a, 0), 5);
    assert_eq!(a.shortfall(&b, 1), 7);
    assert_eq!(b.shortfall(&a, 1), 7);
    assert_eq!(a.total_shortfall(&b), 12);
    assert_eq!(b.total_shortfall(&a), 12);
}

#[test]
fn basket_add_accumulates() {
    let mut a = Basket::new(3);
    a.add(2, 4);
    a.add(2, 5);
    assert_eq!(a.get(2), 9);
    assert_eq!(a.get(0), 0);
    assert_eq!(a.len(), 3);
    assert_eq!(a.shortfall(&Basket::new(3), 2), 9);
}

#[test]
fn tasks_are_substituted_and_filed_by_week() {
    let mut chard = crop("chard", &[1], vec![0, 3], 0);
    chard.instructions = vec![
        (-2, String::from("Seed <variety> and label it <label>")),
        (0, String::from("Plant <label> into <bed>")),
    ];
    chard.harvest_instruction = Some(String::from("Harvest <units> x <variety> from <bed>"));
    let params = greens_catalog(0, vec![chard]);
    let mut genes = vec![0; SEASON_LENGTH];
    genes[1] = 1;
    let evaluator = Evaluator::new(&params, &genes);
    let tasks = evaluator.get_tasks();
    assert_eq!(tasks.get(51), &vec![String::from("Seed chard and label it b0-1")]);
    assert_eq!(tasks.get(1), &vec![String::from("Plant b0-1 into b0")]);
    assert_eq!(tasks.get(2), &vec![String::from("Harvest 3 x chard from b0")]);
    assert!(tasks.get(0).is_empty());
    assert!(tasks.get(3).is_empty());
}

#[test]
fn tasks_add_and_get() {
    let mut tasks = Tasks::new();
    tasks.add(4, &String::from("water"));
    tasks.add(4, &String::from("weed"));
    assert_eq!(tasks.get(4), &vec![String::from("water"), String::from("weed")]);
    assert!(tasks.get(5).is_empty());
}
