use harvest::basket::Basket;
use harvest::params::{Bed, Params, Variety};
use harvest::randomness::Rand;
use harvest::season::{POPULATION_SIZE, SEASON_LENGTH};

fn params_with(beds: Vec<Bed>, varieties: Vec<Variety>) -> Params {
    let mut baskets = Vec::new();
    for _ in 0..SEASON_LENGTH {
        baskets.push(Basket::new(1));
    }
    Params {
        beds,
        varieties,
        baskets,
        basket_category_names: vec![String::from("greens")],
    }
}

#[test]
fn random_variety_meets_requirements() {
    let params = params_with(
        vec![Bed { name: "bed-0".to_string(), properties: vec!["rq-1".to_string()] }],
        vec![
            Variety::dummy("var-0", vec![]),
            Variety::dummy("var-1", vec!["rq-1"]),
            Variety::dummy("var-2", vec!["rq-2"]),
            Variety::dummy("var-2", vec!["rq-1", "rq-2"]),
        ],
    );

    let mut subject = Rand::new(&params, 120);

    for _ in 0..100 {
        for w in 0..SEASON_LENGTH {
            let v = subject.random_variety(w, 0).expect("fail");
            assert_ne!(v, 2);
            assert_ne!(v, 3);
        }
    }
}

#[test]
fn random_variety_satisfies_planting_schedule() {
    let mut params = params_with(
        vec![Bed { name: "bed-0".to_string(), properties: vec![] }],
        vec![Variety::dummy("var-0", vec![])],
    );

    for i in 0..SEASON_LENGTH {
        params.varieties[0].planting_schedule[i] = i % 2 == 0;
    }

    let mut subject = Rand::new(&params, 120);

    for _ in 0..100 {
        for w in 0..SEASON_LENGTH {
            let v = subject.random_variety(w, 0);

            match v {
                Some(_) => assert_eq!(w % 2, 0),
                None => assert_ne!(w % 2, 0),
            };
        }
    }
}

#[test]
fn select_individual() {
    let params = params_with(
        vec![Bed { name: "bed-1".to_string(), properties: vec![] }],
        vec![Variety::dummy("var-1", vec![])],
    );
    let mut subject = Rand::new(&params, 120);

    let mut count_low = 0;
    let mut count_hi = 0;
    for _ in 0..1000 {
        let i = subject.select_individual();
        assert!(i < POPULATION_SIZE);
        if i < 10 {
            count_low += 1
        }
        if i > POPULATION_SIZE - 10 {
            count_hi += 1
        }
    }
    assert!(count_low < count_hi)
}

#[test]
fn random_gene_stays_in_genome() {
    let params = params_with(
        vec![
            Bed { name: "a".to_string(), properties: vec![] },
            Bed { name: "b".to_string(), properties: vec![] },
        ],
        vec![Variety::dummy("var-1", vec![])],
    );
    let mut subject = Rand::new(&params, 7);
    for _ in 0..1000 {
        assert!(subject.random_gene() < 2 * SEASON_LENGTH);
    }
}

#[test]
fn menus_list_plantable_varieties_in_order() {
    let mut params = params_with(
        vec![Bed { name: "bed-0".to_string(), properties: vec!["rq-1".to_string()] }],
        vec![
            Variety::empty(),
            Variety::dummy("var-1", vec!["rq-1"]),
            Variety::dummy("var-2", vec!["rq-2"]),
            Variety::dummy("var-3", vec![]),
        ],
    );
    params.varieties[3].planting_schedule[5] = false;
    let subject = Rand::new(&params, 1);
    assert_eq!(subject.plantable_varieties_by_week_by_bed[0][4], vec![1, 3]);
    assert_eq!(subject.plantable_varieties_by_week_by_bed[0][5], vec![1]);
}
