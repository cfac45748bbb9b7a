//! The text formats of a variety's schedules and of a basket's week range.
//!
//! A planting schedule lists weeks and inclusive week ranges, as in
//! `"4-8,20-24,40"`; a harvest schedule lists yields, each optionally
//! repeated, as in `"0:3,4,5:2"`. In both, an item is a run of digits,
//! optionally followed by the separator and a second run of digits; any
//! other text between items is skipped.

use vstd::prelude::*;
use vstd::string::StringSliceAdditionalSpecFns;
use crate::season::SEASON_LENGTH;

verus! {

/// Why a configuration text was refused.
#[derive(Clone, Copy, PartialEq, Eq, Debug)]
pub enum ConfigError {
    InvalidPlantingSchedule,
    InvalidHarvestSchedule,
    InvalidRange,
    InvalidDemand,
}

/// Values at or above this bound are all read as this bound.
pub const NUMBER_CAP: u64 = 0x1_0000_0000;

pub open spec fn is_digit(c: u8) -> bool {
    48 <= c <= 57
}

/// Length of the run of digits starting at `i`.
pub open spec fn digit_run(b: Seq<u8>, i: int) -> nat
    decreases b.len() - i,
{
    if 0 <= i < b.len() && is_digit(b[i]) {
        1 + digit_run(b, i + 1)
    } else {
        0
    }
}

/// Decimal value of the `n` digits starting at `i`.
pub open spec fn number_value(b: Seq<u8>, i: int, n: nat) -> nat
    decreases n,
{
    if n == 0 {
        0
    } else {
        number_value(b, i, (n - 1) as nat) * 10 + (b[i + n - 1] - 48) as nat
    }
}

proof fn lemma_digit_run(b: Seq<u8>, i: int)
    requires
        0 <= i <= b.len(),
    ensures
        i + digit_run(b, i) <= b.len(),
        i < b.len() && is_digit(b[i]) ==> digit_run(b, i) >= 1,
        forall|k: int| i <= k < i + digit_run(b, i) ==> is_digit(#[trigger] b[k]),
        i + digit_run(b, i) < b.len() ==> !is_digit(b[i + digit_run(b, i)]),
    decreases b.len() - i,
{
    if i < b.len() && is_digit(b[i]) {
        lemma_digit_run(b, i + 1);
    }
}

#[via_fn]
proof fn schedule_items_decreases(b: Seq<u8>, sep: u8, i: int) {
    if 0 <= i < b.len() {
        lemma_digit_run(b, i);
        let j = i + digit_run(b, i);
        if j + 1 < b.len() {
            lemma_digit_run(b, j + 1);
        }
    }
}

/// The items of `b` from position `i`: each a number and, where the
/// separator and more digits follow, a second number.
pub open spec fn schedule_items(b: Seq<u8>, sep: u8, i: int) -> Seq<(nat, Option<nat>)>
    decreases b.len() - i,
    via schedule_items_decreases
{
    if i < 0 || i >= b.len() {
        Seq::empty()
    } else if !is_digit(b[i]) {
        schedule_items(b, sep, i + 1)
    } else {
        let n = digit_run(b, i);
        let v = number_value(b, i, n);
        let j = i + n;
        if j + 1 < b.len() && b[j] == sep && is_digit(b[j + 1]) {
            let m = digit_run(b, j + 1);
            seq![(v, Some(number_value(b, j + 1, m)))] + schedule_items(b, sep, j + 1 + m)
        } else {
            seq![(v, None::<nat>)] + schedule_items(b, sep, j)
        }
    }
}

/// `n`, or `NUMBER_CAP` when it is larger.
pub open spec fn capped(n: nat) -> nat {
    if n < NUMBER_CAP {
        n
    } else {
        NUMBER_CAP as nat
    }
}

proof fn lemma_capped_step(a: nat, d: nat)
    requires
        d <= 9,
    ensures
        capped((capped(a) * 10 + d) as nat) == capped((a * 10 + d) as nat),
{
}

/// Reads the run of digits at `i`, capped at `NUMBER_CAP`.
fn scan_number(b: &[u8], i: usize) -> (r: (u64, usize))
    requires
        i <= b@.len(),
    ensures
        r.1 == i + digit_run(b@, i as int),
        r.0 == capped(number_value(b@, i as int, digit_run(b@, i as int))),
{
    proof {
        lemma_digit_run(b@, i as int);
    }
    let mut j: usize = i;
    let mut v: u64 = 0;
    while j < b.len() && 48 <= b[j] && b[j] <= 57
        invariant
            i <= j <= i + digit_run(b@, i as int),
            i + digit_run(b@, i as int) <= b@.len(),
            forall|k: int| i <= k < i + digit_run(b@, i as int) ==> is_digit(#[trigger] b@[k]),
            i + digit_run(b@, i as int) < b@.len() ==> !is_digit(b@[i + digit_run(b@, i as int)]),
            v == capped(number_value(b@, i as int, (j - i) as nat)),
        decreases b@.len() - j,
    {
        let d = (b[j] - 48) as u64;
        let ghost a = number_value(b@, i as int, (j - i) as nat);
        proof {
            assert(number_value(b@, i as int, (j + 1 - i) as nat) == a * 10 + d);
            lemma_capped_step(a, d as nat);
        }
        let next = v * 10 + d;
        v = if next < NUMBER_CAP { next } else { NUMBER_CAP };
        j = j + 1;
    }
    (v, j)
}

/// `items` with each number capped.
pub open spec fn capped_items(items: Seq<(nat, Option<nat>)>) -> Seq<(nat, Option<nat>)> {
    items.map_values(
        |it: (nat, Option<nat>)|
            (
                capped(it.0),
                match it.1 {
                    Some(m) => Some(capped(m)),
                    None => None,
                },
            ),
    )
}

/// The items of `b`, each number capped at `NUMBER_CAP`.
fn scan_items(b: &[u8], sep: u8) -> (r: Vec<(u64, Option<u64>)>)
    ensures
        r@.len() == schedule_items(b@, sep, 0).len(),
        forall|k: int|
            0 <= k < r@.len() ==> (#[trigger] r@[k]).0 == capped(schedule_items(b@, sep, 0)[k].0) && match r@[k].1 {
                Some(m) => schedule_items(b@, sep, 0)[k].1 matches Some(x) && m == capped(x),
                None => schedule_items(b@, sep, 0)[k].1.is_none(),
            },
{
    let ghost all = schedule_items(b@, sep, 0);
    let mut r: Vec<(u64, Option<u64>)> = Vec::new();
    let mut i: usize = 0;
    while i < b.len()
        invariant
            i <= b@.len(),
            all == schedule_items(b@, sep, 0),
            r@.len() + schedule_items(b@, sep, i as int).len() == all.len(),
            forall|k: int|
                0 <= k < r@.len() ==> (#[trigger] r@[k]).0 == capped(all[k].0) && match r@[k].1 {
                    Some(m) => all[k].1 matches Some(x) && m == capped(x),
                    None => all[k].1.is_none(),
                },
            forall|k: int|
                0 <= k < schedule_items(b@, sep, i as int).len() ==> #[trigger] schedule_items(b@, sep, i as int)[k]
                    == all[r@.len() + k],
        decreases b@.len() - i,
    {
        let ghost rest = schedule_items(b@, sep, i as int);
        if 48 <= b[i] && b[i] <= 57 {
            let (v, j) = scan_number(b, i);
            proof {
                lemma_digit_run(b@, i as int);
            }
            if b.len() - j > 1 && b[j] == sep && 48 <= b[j + 1] && b[j + 1] <= 57 {
                let (m, end) = scan_number(b, j + 1);
                proof {
                    lemma_digit_run(b@, j + 1);
                    let tail = schedule_items(b@, sep, end as int);
                    assert(rest == seq![(number_value(b@, i as int, digit_run(b@, i as int)), Some(number_value(b@, j + 1, digit_run(b@, j + 1))))] + tail);
                    assert(rest[0] == all[r@.len() as int]);
                    assert forall|k: int| 0 <= k < tail.len() implies #[trigger] tail[k] == all[r@.len() + 1 + k] by {
                        assert(tail[k] == rest[k + 1]);
                    }
                }
                r.push((v, Some(m)));
                i = end;
            } else {
                proof {
                    let tail = schedule_items(b@, sep, j as int);
                    assert(rest == seq![(number_value(b@, i as int, digit_run(b@, i as int)), None::<nat>)] + tail);
                    assert(rest[0] == all[r@.len() as int]);
                    assert forall|k: int| 0 <= k < tail.len() implies #[trigger] tail[k] == all[r@.len() + 1 + k] by {
                        assert(tail[k] == rest[k + 1]);
                    }
                }
                r.push((v, None));
                i = j;
            }
        } else {
            i = i + 1;
        }
    }
    r
}

/// The items of a planting schedule.
pub open spec fn planting_items(s: &str) -> Seq<(nat, Option<nat>)> {
    schedule_items(s.spec_bytes(), 45u8, 0)
}

/// A week below 52, or a range of weeks `lo-hi` with `lo < hi < 52`.
pub open spec fn planting_item_valid(item: (nat, Option<nat>)) -> bool {
    match item.1 {
        None => item.0 < SEASON_LENGTH,
        Some(hi) => item.0 < hi && hi < SEASON_LENGTH,
    }
}

/// Does `item` name week `w`.
pub open spec fn item_covers(item: (nat, Option<nat>), w: int) -> bool {
    match item.1 {
        None => item.0 == w,
        Some(hi) => item.0 <= w <= hi,
    }
}

/// One flag per week: does some item name it.
pub open spec fn planting_weeks(items: Seq<(nat, Option<nat>)>, n: nat) -> Seq<bool> {
    Seq::new(
        SEASON_LENGTH as nat,
        |w: int| exists|k: int| 0 <= k < n && #[trigger] item_covers(items[k], w),
    )
}

/// Reads a planting schedule into one flag per week of the season.
pub fn parse_planting_schedule(s: &str) -> (r: Result<Vec<bool>, ConfigError>)
    ensures
        r.is_ok() <==> forall|k: int|
            0 <= k < planting_items(s).len() ==> planting_item_valid(#[trigger] planting_items(s)[k]),
        r matches Ok(flags) ==> flags@ == planting_weeks(planting_items(s), planting_items(s).len()),
        r matches Err(e) ==> e == ConfigError::InvalidPlantingSchedule,
{
    let ghost items = planting_items(s);
    let scanned = scan_items(s.as_bytes(), 45u8);
    let mut flags: Vec<bool> = Vec::new();
    let mut w: usize = 0;
    while w < SEASON_LENGTH
        invariant
            w <= SEASON_LENGTH,
            flags@ == Seq::new(w as nat, |_w: int| false),
        decreases SEASON_LENGTH - w,
    {
        flags.push(false);
        w = w + 1;
        assert(flags@ =~= Seq::new(w as nat, |_w: int| false));
    }
    assert(flags@ =~= planting_weeks(items, 0));
    let mut k: usize = 0;
    while k < scanned.len()
        invariant
            items == planting_items(s),
            scanned@.len() == items.len(),
            forall|x: int|
                0 <= x < scanned@.len() ==> (#[trigger] scanned@[x]).0 == capped(items[x].0) && match scanned@[x].1 {
                    Some(m) => items[x].1 matches Some(y) && m == capped(y),
                    None => items[x].1.is_none(),
                },
            k <= scanned@.len(),
            forall|x: int| 0 <= x < k ==> planting_item_valid(#[trigger] items[x]),
            flags@ == planting_weeks(items, k as nat),
        decreases scanned@.len() - k,
    {
        let (lo, hi) = match scanned[k].1 {
            Some(hi) => {
                if !(scanned[k].0 < hi && hi < SEASON_LENGTH as u64) {
                    return Err(ConfigError::InvalidPlantingSchedule);
                }
                (scanned[k].0 as usize, hi as usize)
            },
            None => {
                if !(scanned[k].0 < SEASON_LENGTH as u64) {
                    return Err(ConfigError::InvalidPlantingSchedule);
                }
                (scanned[k].0 as usize, scanned[k].0 as usize)
            },
        };
        assert(planting_item_valid(items[k as int]));
        let ghost before = flags@;
        let mut week: usize = lo;
        while week <= hi
            invariant
                lo <= week <= hi + 1,
                hi < SEASON_LENGTH,
                flags@.len() == SEASON_LENGTH,
                forall|x: int|
                    0 <= x < SEASON_LENGTH ==> #[trigger] flags@[x] == (before[x] || (lo <= x < week)),
            decreases hi + 1 - week,
        {
            flags.set(week, true);
            week = week + 1;
        }
        proof {
            assert forall|x: int| 0 <= x < SEASON_LENGTH implies #[trigger] flags@[x]
                == planting_weeks(items, (k + 1) as nat)[x] by {
                if lo <= x <= hi {
                    assert(item_covers(items[k as int], x));
                }
                if planting_weeks(items, (k + 1) as nat)[x] {
                    let y = choose|y: int| 0 <= y < k + 1 && #[trigger] item_covers(items[y], x);
                    if y < k {
                        assert(before[x]);
                    }
                }
            }
            assert(flags@ =~= planting_weeks(items, (k + 1) as nat));
        }
        k = k + 1;
    }
    Ok(flags)
}

/// The items of a harvest schedule.
pub open spec fn harvest_items(s: &str) -> Seq<(nat, Option<nat>)> {
    schedule_items(s.spec_bytes(), 58u8, 0)
}

/// A yield, and a repeat count if any, that fit in `u32`.
pub open spec fn harvest_item_valid(item: (nat, Option<nat>)) -> bool {
    item.0 <= u32::MAX && match item.1 {
        None => true,
        Some(count) => count <= u32::MAX,
    }
}

/// The yields of the first `n` items, each repeated by its count.
pub open spec fn harvest_yields(items: Seq<(nat, Option<nat>)>, n: nat) -> Seq<u32>
    decreases n,
{
    if n == 0 {
        Seq::empty()
    } else {
        let item = items[n - 1];
        harvest_yields(items, (n - 1) as nat) + match item.1 {
            None => seq![item.0 as u32],
            Some(count) => Seq::new(count, |_i: int| item.0 as u32),
        }
    }
}

/// Reads a harvest schedule into the yield of each week of a crop's age; a
/// schedule that gives no yield at all is refused, as a crop occupies its
/// bed for at least one week.
pub fn parse_harvest_schedule(s: &str) -> (r: Result<Vec<u32>, ConfigError>)
    ensures
        r.is_ok() <==> (forall|k: int|
            0 <= k < harvest_items(s).len() ==> harvest_item_valid(#[trigger] harvest_items(s)[k]))
            && harvest_yields(harvest_items(s), harvest_items(s).len()).len() > 0,
        r matches Ok(yields) ==> yields@ == harvest_yields(harvest_items(s), harvest_items(s).len()),
        r matches Err(e) ==> e == ConfigError::InvalidHarvestSchedule,
{
    let ghost items = harvest_items(s);
    let scanned = scan_items(s.as_bytes(), 58u8);
    let mut yields: Vec<u32> = Vec::new();
    let mut k: usize = 0;
    while k < scanned.len()
        invariant
            items == harvest_items(s),
            scanned@.len() == items.len(),
            forall|x: int|
                0 <= x < scanned@.len() ==> (#[trigger] scanned@[x]).0 == capped(items[x].0) && match scanned@[x].1 {
                    Some(m) => items[x].1 matches Some(y) && m == capped(y),
                    None => items[x].1.is_none(),
                },
            k <= scanned@.len(),
            forall|x: int| 0 <= x < k ==> harvest_item_valid(#[trigger] items[x]),
            yields@ == harvest_yields(items, k as nat),
        decreases scanned@.len() - k,
    {
        let value = scanned[k].0;
        if value > u32::MAX as u64 {
            return Err(ConfigError::InvalidHarvestSchedule);
        }
        let ghost before = yields@;
        match scanned[k].1 {
            Some(count) => {
                if count > u32::MAX as u64 {
                    return Err(ConfigError::InvalidHarvestSchedule);
                }
                let mut i: u64 = 0;
                while i < count
                    invariant
                        i <= count,
                        yields@ == before + Seq::new(i as nat, |_i: int| value as u32),
                    decreases count - i,
                {
                    yields.push(value as u32);
                    i = i + 1;
                    assert(yields@ =~= before + Seq::new(i as nat, |_i: int| value as u32));
                }
                assert(harvest_yields(items, (k + 1) as nat) =~= before + Seq::new(
                    count as nat,
                    |_i: int| value as u32,
                ));
            },
            None => {
                yields.push(value as u32);
                assert(harvest_yields(items, (k + 1) as nat) =~= before.push(value as u32));
            },
        }
        k = k + 1;
    }
    if yields.len() == 0 {
        return Err(ConfigError::InvalidHarvestSchedule);
    }
    Ok(yields)
}

/// The bounds of a week range written `lo-hi`, when it is one with
/// `lo <= hi < u32::MAX`.
pub open spec fn range_bounds(b: Seq<u8>) -> Option<(nat, nat)> {
    let n1 = digit_run(b, 0);
    if n1 >= 1 && n1 + 1 < b.len() && b[n1 as int] == 45u8 {
        let n2 = digit_run(b, (n1 + 1) as int);
        let lo = number_value(b, 0, n1);
        let hi = number_value(b, (n1 + 1) as int, n2);
        if n2 >= 1 && n1 + 1 + n2 == b.len() && lo <= hi && hi < u32::MAX {
            Some((lo, hi))
        } else {
            None
        }
    } else {
        None
    }
}

/// Reads an inclusive week range `lo-hi` into the range `lo..hi + 1`.
pub fn as_range(value: &str) -> (r: Result<std::ops::Range<usize>, ConfigError>)
    ensures
        r.is_ok() <==> range_bounds(value.spec_bytes()).is_some(),
        r matches Ok(range) ==> range_bounds(value.spec_bytes()) == Some(
            (range.start as nat, (range.end - 1) as nat),
        ) && range.end >= 1,
        r matches Err(e) ==> e == ConfigError::InvalidRange,
{
    let b = value.as_bytes();
    proof {
        lemma_digit_run(b@, 0);
    }
    let (lo, n1) = scan_number(b, 0);
    if !(n1 >= 1 && b.len() - n1 > 1 && b[n1] == 45u8) {
        return Err(ConfigError::InvalidRange);
    }
    proof {
        lemma_digit_run(b@, n1 + 1);
    }
    let (hi, end) = scan_number(b, n1 + 1);
    if !(end > n1 + 1 && end == b.len() && lo <= hi && hi < u32::MAX as u64) {
        return Err(ConfigError::InvalidRange);
    }
    Ok(std::ops::Range { start: lo as usize, end: hi as usize + 1 })
}

} // verus!
