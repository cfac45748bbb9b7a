//! A crop plan as one flat array of variety ids, one slot per (bed, week).

use vstd::prelude::*;
use crate::season::SEASON_LENGTH;

verus! {

/// Number of nonzero slots among the first `n` of `data`.
pub open spec fn nonzero_count(data: Seq<usize>, n: nat) -> nat
    decreases n,
{
    if n == 0 {
        0
    } else {
        nonzero_count(data, (n - 1) as nat) + if data[n - 1] != 0 {
            1nat
        } else {
            0nat
        }
    }
}

/// The last week of `slots` (a bed's 52 slots) that holds a planting.
pub open spec fn last_planting(slots: Seq<usize>) -> Option<usize> {
    if exists|w: int| 0 <= w < slots.len() && slots[w] != 0 {
        let w = choose|w: int|
            0 <= w < slots.len() && slots[w] != 0 && forall|v: int|
                w < v < slots.len() ==> slots[v] == 0;
        Some(w as usize)
    } else {
        None
    }
}

/// Slot `bed * 52 + week` holds the variety planted in bed `bed` at week `week`;
/// 0 means no planting.
pub struct Plan {
    data: Vec<usize>,
}

impl View for Plan {
    type V = Seq<usize>;

    closed spec fn view(&self) -> Seq<usize> {
        self.data@
    }
}

impl Plan {
    /// An empty plan over `num_beds` beds.
    pub fn new(num_beds: usize) -> (r: Plan)
        requires
            num_beds * SEASON_LENGTH <= usize::MAX,
        ensures
            r@ == Seq::new((num_beds * SEASON_LENGTH) as nat, |_i: int| 0usize),
    {
        let n = num_beds * SEASON_LENGTH;
        let mut data: Vec<usize> = Vec::new();
        let mut i: usize = 0;
        while i < n
            invariant
                i <= n,
                data@ == Seq::new(i as nat, |_i: int| 0usize),
            decreases n - i,
        {
            data.push(0);
            i = i + 1;
            assert(data@ =~= Seq::new(i as nat, |_i: int| 0usize));
        }
        Plan { data }
    }

    /// A plan holding exactly `data`.
    pub fn from_genes(data: Vec<usize>) -> (r: Plan)
        ensures
            r@ == data@,
    {
        Plan { data }
    }

    /// A copy of this plan.
    pub fn duplicate(&self) -> (r: Plan)
        ensures
            r@ == self@,
    {
        Plan { data: copy_genes(&self.data) }
    }

    /// Variety planted in `bed` at `week`.
    pub fn get(&self, bed: usize, week: usize) -> (r: usize)
        requires
            week < SEASON_LENGTH,
            bed * SEASON_LENGTH + week < self@.len(),
        ensures
            r == self@[bed * SEASON_LENGTH + week],
    {
        let len = self.data.len();
        assert(bed * SEASON_LENGTH + week < len);
        self.data[bed * SEASON_LENGTH + week]
    }

    /// All slots.
    pub fn get_data(&self) -> (r: &Vec<usize>)
        ensures
            r@ == self@,
    {
        &self.data
    }

    /// All slots, for writing.
    pub fn get_data_mut(&mut self) -> (r: &mut Vec<usize>)
        ensures
            r@ == old(self)@,
            final(self)@ == (*final(r))@,
    {
        &mut self.data
    }

    /// The last week of `bed` that holds a planting.
    pub fn get_last_planting_week(&self, bed: usize) -> (r: Option<usize>)
        requires
            (bed + 1) * SEASON_LENGTH <= self@.len(),
        ensures
            r == last_planting(
                self@.subrange(bed * SEASON_LENGTH as int, bed * SEASON_LENGTH + SEASON_LENGTH),
            ),
    {
        let ghost slots = self@.subrange(bed * SEASON_LENGTH as int, bed * SEASON_LENGTH + SEASON_LENGTH);
        let len = self.data.len();
        let base = bed * SEASON_LENGTH;
        let mut w: usize = SEASON_LENGTH;
        while w > 0
            invariant
                w <= SEASON_LENGTH,
                base == bed * SEASON_LENGTH,
                base + SEASON_LENGTH <= self@.len(),
                self@.len() == len,
                slots == self@.subrange(base as int, base + SEASON_LENGTH),
                forall|v: int| w <= v < SEASON_LENGTH ==> slots[v] == 0,
            decreases w,
        {
            assert(self@[base + w - 1] == slots[w - 1]);
            if self.data[base + w - 1] != 0 {
                let ghost found = (w - 1) as int;
                assert(exists|x: int| 0 <= x < slots.len() && slots[x] != 0) by {
                    assert(slots[found] != 0);
                }
                proof {
                    let c = choose|x: int|
                        0 <= x < slots.len() && slots[x] != 0 && forall|v: int|
                            x < v < slots.len() ==> slots[v] == 0;
                    assert(0 <= found < slots.len() && slots[found] != 0 && forall|v: int|
                        found < v < slots.len() ==> slots[v] == 0);
                    if c < found {
                        assert(slots[found] == 0);
                    } else if c > found {
                        assert(slots[c] == 0);
                    }
                }
                return Some(w - 1);
            }
            w = w - 1;
        }
        None
    }

    /// Number of slots that hold a planting.
    pub fn get_num_plantings(&self) -> (r: usize)
        ensures
            r == nonzero_count(self@, self@.len()),
    {
        let mut n: usize = 0;
        let mut i: usize = 0;
        while i < self.data.len()
            invariant
                i <= self@.len(),
                n == nonzero_count(self@, i as nat),
                n <= i,
            decreases self@.len() - i,
        {
            if self.data[i] != 0 {
                n = n + 1;
            }
            i = i + 1;
        }
        n
    }
}

/// A copy of `data`.
pub fn copy_genes(data: &Vec<usize>) -> (r: Vec<usize>)
    ensures
        r@ == data@,
{
    let mut r: Vec<usize> = Vec::new();
    let mut i: usize = 0;
    while i < data.len()
        invariant
            i <= data@.len(),
            r@ == data@.subrange(0, i as int),
        decreases data@.len() - i,
    {
        r.push(data[i]);
        i = i + 1;
        assert(r@ =~= data@.subrange(0, i as int));
    }
    assert(r@ =~= data@);
    r
}

} // verus!
