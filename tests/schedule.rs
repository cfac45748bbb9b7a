use harvest::schedule::{as_range, parse_harvest_schedule, parse_planting_schedule, ConfigError};

#[test]
fn test_as_range() {
    let r = as_range("0-5").expect("Parse failed");
    assert_eq!(r.start, 0);
    assert_eq!(r.end, 6);

    let r2 = as_range("1-1").expect("Parse failed");
    assert_eq!(r2.start, 1);
    assert_eq!(r2.end, 2);
}

#[test]
fn as_range_refuses_reversed_and_malformed() {
    assert_eq!(as_range("5-1"), Err(ConfigError::InvalidRange));
    assert_eq!(as_range("5"), Err(ConfigError::InvalidRange));
    assert_eq!(as_range("-5"), Err(ConfigError::InvalidRange));
    assert_eq!(as_range("1-2x"), Err(ConfigError::InvalidRange));
    assert_eq!(as_range("12-40"), Ok(12..41));
}

#[test]
fn harvest_schedule_expands_runs() {
    let yields = parse_harvest_schedule("0:3,4,5:2").expect("failed to parse");
    assert_eq!(yields, vec![0, 0, 0, 4, 5, 5]);
}

#[test]
fn harvest_schedule_refuses_oversized_yield() {
    assert_eq!(
        parse_harvest_schedule("1,99999999999"),
        Err(ConfigError::InvalidHarvestSchedule)
    );
    assert_eq!(parse_harvest_schedule(""), Err(ConfigError::InvalidHarvestSchedule));
    assert_eq!(parse_harvest_schedule("5:0"), Err(ConfigError::InvalidHarvestSchedule));
}

#[test]
fn planting_schedule_weeks_and_ranges() {
    let flags = parse_planting_schedule("4-8,20-24,40,50").expect("failed to parse");
    assert_eq!(flags.len(), 52);
    assert_eq!(flags[3], false);
    assert_eq!(flags[4], true);
    assert_eq!(flags[8], true);
    assert_eq!(flags[9], false);
    assert_eq!(flags[19], false);
    assert_eq!(flags[20], true);
    assert_eq!(flags[24], true);
    assert_eq!(flags[25], false);
    assert_eq!(flags[39], false);
    assert_eq!(flags[40], true);
    assert_eq!(flags[41], false);
    assert_eq!(flags[50], true);
}

#[test]
fn planting_schedule_refuses_bad_weeks() {
    assert_eq!(parse_planting_schedule("8-4"), Err(ConfigError::InvalidPlantingSchedule));
    assert_eq!(parse_planting_schedule("5-5"), Err(ConfigError::InvalidPlantingSchedule));
    assert_eq!(parse_planting_schedule("52"), Err(ConfigError::InvalidPlantingSchedule));
    assert_eq!(parse_planting_schedule("10-60"), Err(ConfigError::InvalidPlantingSchedule));
}

#[test]
fn harvestable_weeks_follow_planting_and_yield() {
    let mut v = harvest::params::Variety::dummy("tomato", vec!["polytunnel"]);
    v.planting_schedule = parse_planting_schedule("4-8,20-24,40,50").expect("failed to parse");
    v.harvest_schedule = parse_harvest_schedule("0:3,4,5:2").expect("failed to parse");
    assert_eq!(v.get_longevity(), 6);
    assert_eq!(v.is_harvestable_in_week(0), false);
    assert_eq!(v.is_harvestable_in_week(1), true);
    assert_eq!(v.is_harvestable_in_week(53), true);
    assert_eq!(v.is_harvestable_in_week(7), true);
    assert_eq!(v.is_harvestable_in_week(20), false);
}
