use harvest::basket::Basket;
use harvest::evolver::{Draw, Evolver, Progress};
use harvest::genome::Genome;
use harvest::params::{Bed, Params, Variety};
use harvest::plan::Plan;
use harvest::randomness::Rand;
use harvest::season::{POPULATION_SIZE, SEASON_LENGTH};
use harvest::bed_plan::BedPlan;

fn crop(name: &str, weeks: &[usize], yields: Vec<u32>, category: usize) -> Variety {
    let mut v = Variety::dummy(name, vec![]);
    for w in 0..SEASON_LENGTH {
        v.planting_schedule[w] = weeks.contains(&w);
    }
    v.harvest_schedule = yields;
    v.basket_category = category;
    v
}

fn catalog(num_beds: usize, demand: i64, varieties: Vec<Variety>) -> Params {
    let mut all = vec![Variety::empty()];
    all.extend(varieties);
    let mut baskets = Vec::new();
    for _ in 0..SEASON_LENGTH {
        let mut b = Basket::new(1);
        b.add(0, demand);
        baskets.push(b);
    }
    let mut beds = Vec::new();
    for b in 0..num_beds {
        beds.push(Bed { name: format!("b{}", b), properties: vec![] });
    }
    Params { beds, varieties: all, baskets, basket_category_names: vec![String::from("greens")] }
}

#[test]
fn mutation_clears_only_the_new_crop_weeks() {
    let all_weeks: Vec<usize> = (0..SEASON_LENGTH).collect();
    let params = catalog(
        1,
        0,
        vec![crop("leek", &all_weeks, vec![1, 1, 1, 1], 0), crop("bean", &all_weeks, vec![1, 1, 1], 0)],
    );
    let mut genes = vec![0; SEASON_LENGTH];
    genes[10] = 1;
    genes[12] = 1;
    genes[13] = 1;
    genes[14] = 1;
    let mut genome = Genome::from_genes(&params, genes).expect("valid plan");
    genome.mutate_at(11, 2);
    let after = genome.get_genes();
    assert_eq!(after[10], 1);
    assert_eq!(after[11], 2);
    assert_eq!(after[12], 0);
    assert_eq!(after[13], 0);
    assert_eq!(after[14], 1);
}

#[test]
fn mutation_clearing_stops_at_season_end() {
    let all_weeks: Vec<usize> = (0..SEASON_LENGTH).collect();
    let params = catalog(2, 0, vec![crop("leek", &all_weeks, vec![1, 1, 1, 1], 0)]);
    let mut genes = vec![0; 2 * SEASON_LENGTH];
    genes[51] = 1;
    genes[52] = 1;
    let mut genome = Genome::from_genes(&params, genes).expect("valid plan");
    genome.mutate_at(50, 1);
    let after = genome.get_genes();
    assert_eq!(after[50], 1);
    assert_eq!(after[51], 0);
    assert_eq!(after[52], 1);
}

#[test]
fn random_mutation_keeps_plan_valid() {
    let all_weeks: Vec<usize> = (0..SEASON_LENGTH).collect();
    let params = catalog(2, 0, vec![crop("leek", &all_weeks, vec![1, 1], 0)]);
    let mut rand = Rand::new(&params, 3);
    let mut genome = Genome::new(&params);
    for _ in 0..200 {
        genome.mutate(&mut rand);
    }
    let genes = genome.get_genes();
    assert_eq!(genes.len(), 2 * SEASON_LENGTH);
    assert!(genes.iter().all(|&v| v <= 1));
    assert!(genes.iter().any(|&v| v == 1));
}

#[test]
fn crossover_takes_each_slot_from_a_parent() {
    let all_weeks: Vec<usize> = (0..SEASON_LENGTH).collect();
    let params = catalog(1, 0, vec![crop("a", &all_weeks, vec![1], 0), crop("b", &all_weeks, vec![1], 0)]);
    let mother = Genome::from_genes(&params, vec![1; SEASON_LENGTH]).expect("valid");
    let father = Genome::from_genes(&params, vec![2; SEASON_LENGTH]).expect("valid");
    let mut child = Genome::new(&params);
    let mut rand = Rand::new(&params, 11);
    Genome::cross(&mother, &father, &mut child, &mut rand);
    let genes = child.get_genes();
    assert!(genes.iter().all(|&v| v == 1 || v == 2));
    assert!(genes.iter().any(|&v| v == 1));
    assert!(genes.iter().any(|&v| v == 2));
}

#[test]
fn reloaded_genes_decode_the_same() {
    let all_weeks: Vec<usize> = (0..SEASON_LENGTH).collect();
    let params = catalog(2, 3, vec![crop("leek", &all_weeks, vec![0, 2, 2], 0)]);
    let mut rand = Rand::new(&params, 5);
    let mut genome = Genome::new(&params);
    genome.randomize(&mut rand);
    let saved = genome.get_genes();
    let reloaded = Genome::from_genes(&params, saved.clone()).expect("reload");
    assert_eq!(reloaded.get_genes(), saved);
    for bed in 0..2 {
        let a = BedPlan::new(bed, &saved, &params);
        let b = BedPlan::new(bed, &reloaded.get_genes(), &params);
        assert_eq!(a.iter(), b.iter());
    }
    assert_eq!(genome.score(), reloaded.score());
}

#[test]
fn from_genes_refuses_wrong_shapes() {
    let params = catalog(1, 0, vec![]);
    assert!(Genome::from_genes(&params, vec![0; 51]).is_none());
    assert!(Genome::from_genes(&params, vec![1; SEASON_LENGTH]).is_none());
    assert!(Genome::from_genes(&params, vec![0; SEASON_LENGTH]).is_some());
}

#[test]
fn best_score_never_decreases() {
    let all_weeks: Vec<usize> = (0..SEASON_LENGTH).collect();
    let params = catalog(
        2,
        4,
        vec![crop("leek", &all_weeks, vec![0, 2, 2, 2], 0), crop("kale", &[0, 10, 20], vec![1, 1], 0)],
    );
    let mut evolver = Evolver::new(&params, 42);
    let mut best = evolver.get_best_score();
    for _ in 0..30 {
        evolver.step();
        let now = evolver.get_best_score();
        assert!(now >= best);
        best = now;
    }
    assert_eq!(evolver.get_best_solution().score(), best);
}

#[test]
fn progress_detects_stale_generations() {
    let mut p = Progress::new();
    assert!(p.observe(-10));
    assert!(!p.observe(-10));
    assert!(!p.observe(-12));
    assert_eq!(p.num_gens_without_improvement, 2);
    assert!(p.observe(-9));
    assert_eq!(p.num_gens_without_improvement, 0);
    for _ in 0..1000 {
        p.observe(-9);
    }
    assert!(p.is_converged());
}

#[test]
fn plan_queries() {
    let mut plan = Plan::new(2);
    assert_eq!(plan.get_num_plantings(), 0);
    assert_eq!(plan.get_last_planting_week(1), None);
    plan.get_data_mut()[52 + 7] = 3;
    plan.get_data_mut()[52 + 30] = 1;
    assert_eq!(plan.get(1, 7), 3);
    assert_eq!(plan.get_last_planting_week(1), Some(30));
    assert_eq!(plan.get_last_planting_week(0), None);
    assert_eq!(plan.get_num_plantings(), 2);
    assert_eq!(plan.get_data().len(), 104);
}

#[test]
fn params_lookups() {
    let mut params = catalog(2, 0, vec![]);
    assert_eq!(params.get_bed(&String::from("b1")), Some(1));
    assert_eq!(params.get_bed(&String::from("zz")), None);
    assert_eq!(params.get_basket_category_id(&String::from("greens")), 0);
    assert_eq!(params.get_basket_category_id(&String::from("tomato")), 1);
    assert_eq!(params.get_num_basket_categories(), 2);
    assert_eq!(params.get_basket_category_name(1), "tomato");
    assert_eq!(params.genome_size(), 104);
}

#[test]
fn step_with_given_draws_keeps_best_and_adds_children() {
    let all_weeks: Vec<usize> = (0..SEASON_LENGTH).collect();
    let params = catalog(1, 0, vec![crop("a", &all_weeks, vec![1], 0), crop("b", &all_weeks, vec![1, 1], 0)]);
    let mut evolver = Evolver::new(&params, 9);
    let best = evolver.get_best_solution().get_genes();
    let mut draws = Vec::new();
    let mut expected = vec![best.clone()];
    for i in 0..POPULATION_SIZE - 1 {
        draws.push(Draw {
            mother: POPULATION_SIZE - 1,
            father: 0,
            from_mother: vec![true; SEASON_LENGTH],
            gene: i,
            variety: 2,
        });
        let mut child = best.clone();
        child[i] = 2;
        if i + 1 < SEASON_LENGTH {
            child[i + 1] = 0;
        }
        expected.push(child);
    }
    evolver.step_with(&draws);

    let mut scores = Vec::new();
    let mut got = Vec::new();
    for genes in expected.iter() {
        scores.push(Genome::from_genes(&params, genes.clone()).unwrap().score());
    }
    let mut best_score = i128::MIN;
    for s in scores.iter() {
        best_score = best_score.max(*s);
    }
    assert_eq!(evolver.get_best_score(), best_score);
    let best_after = evolver.get_best_solution().get_genes();
    assert!(expected.contains(&best_after));
    got.push(best_after);
    assert!(got.iter().all(|g| g.len() == SEASON_LENGTH));
}

#[test]
fn add_target_demand_fills_week_range() {
    let mut params = catalog(1, 0, vec![]);
    assert_eq!(params.add_target_demand(3..6, 0, 7), Ok(()));
    assert_eq!(params.baskets[2].get(0), 0);
    assert_eq!(params.baskets[3].get(0), 7);
    assert_eq!(params.baskets[5].get(0), 7);
    assert_eq!(params.baskets[6].get(0), 0);
    assert!(params.add_target_demand(50..53, 0, 1).is_err());
    assert!(params.add_target_demand(0..1, 4, 1).is_err());
    assert!(params.add_target_demand(3..4, 0, i64::MAX).is_err());
    assert_eq!(params.baskets[3].get(0), 7);
}

#[test]
fn catalog_validity_refuses_bad_varieties() {
    let all_weeks: Vec<usize> = (0..SEASON_LENGTH).collect();
    let params = catalog(1, 0, vec![crop("a", &all_weeks, vec![1], 0)]);
    assert!(params.is_valid());
    let empty_curve = catalog(1, 0, vec![crop("a", &all_weeks, vec![], 0)]);
    assert!(!empty_curve.is_valid());
    let mut plantable_empty = catalog(1, 0, vec![]);
    plantable_empty.varieties[0].planting_schedule[3] = true;
    assert!(!plantable_empty.is_valid());
    let mut twice = crop("a", &all_weeks, vec![1], 0);
    twice.instructions = vec![(1, String::from("x")), (1, String::from("y"))];
    assert!(!catalog(1, 0, vec![twice]).is_valid());
    let mut far = crop("a", &all_weeks, vec![1], 0);
    far.instructions = vec![(52, String::from("x"))];
    assert!(!catalog(1, 0, vec![far]).is_valid());
}

#[test]
fn randomized_slots_come_from_their_menus() {
    let params = catalog(2, 0, vec![crop("a", &[1, 2, 3], vec![1], 0), crop("b", &[3, 40], vec![1], 0)]);
    let mut rand = Rand::new(&params, 13);
    let mut genome = Genome::new(&params);
    genome.randomize(&mut rand);
    let genes = genome.get_genes();
    for g in 0..genes.len() {
        let w = g % SEASON_LENGTH;
        match w {
            1 | 2 => assert_eq!(genes[g], 1),
            3 => assert!(genes[g] == 1 || genes[g] == 2),
            40 => assert_eq!(genes[g], 2),
            _ => assert_eq!(genes[g], 0),
        }
    }
}
