//! Per-category produce quantities for one week, and their comparison.

use vstd::prelude::*;

verus! {

/// Absolute difference of two baskets in one category.
pub open spec fn difference(a: Seq<i64>, b: Seq<i64>, category: int) -> int {
    let d = a[category] - b[category];
    if d >= 0 { d } else { -d }
}

/// Sum of `difference` over the first `n` categories.
pub open spec fn total_difference(a: Seq<i64>, b: Seq<i64>, n: nat) -> int
    decreases n,
{
    if n == 0 {
        0
    } else {
        total_difference(a, b, (n - 1) as nat) + difference(a, b, n - 1)
    }
}

/// `total_difference` is never negative and grows by at most `u64::MAX` per category.
pub proof fn lemma_total_difference_bounds(a: Seq<i64>, b: Seq<i64>, n: nat)
    requires
        n <= a.len(),
        n <= b.len(),
    ensures
        0 <= total_difference(a, b, n) <= n * (u64::MAX as int),
    decreases n,
{
    if n > 0 {
        lemma_total_difference_bounds(a, b, (n - 1) as nat);
        assert(difference(a, b, n - 1) <= u64::MAX as int);
        assert((n - 1) * (u64::MAX as int) + (u64::MAX as int) == n * (u64::MAX as int))
            by (nonlinear_arith);
    }
}

/// The difference between two baskets does not depend on which is the target.
pub proof fn lemma_difference_symmetric(a: Seq<i64>, b: Seq<i64>, category: int)
    ensures
        difference(a, b, category) == difference(b, a, category),
{
}

/// A vector of quantities, one per basket category.
pub struct Basket {
    items: Vec<i64>,
}

impl View for Basket {
    type V = Seq<i64>;

    closed spec fn view(&self) -> Seq<i64> {
        self.items@
    }
}

impl Basket {
    /// An empty basket over `num_categories` categories.
    pub fn new(num_categories: usize) -> (r: Basket)
        ensures
            r@ == Seq::new(num_categories as nat, |_c: int| 0i64),
    {
        let mut items: Vec<i64> = Vec::new();
        let mut i: usize = 0;
        while i < num_categories
            invariant
                i <= num_categories,
                items@ == Seq::new(i as nat, |_c: int| 0i64),
            decreases num_categories - i,
        {
            items.push(0);
            i = i + 1;
            assert(items@ =~= Seq::new(i as nat, |_c: int| 0i64));
        }
        Basket { items }
    }

    /// Number of categories.
    pub fn len(&self) -> (r: usize)
        ensures
            r == self@.len(),
    {
        self.items.len()
    }

    /// Quantity held in `category`.
    pub fn get(&self, category: usize) -> (r: i64)
        requires
            category < self@.len(),
        ensures
            r == self@[category as int],
    {
        self.items[category]
    }

    /// Adds `quantity` to `category`.
    pub fn add(&mut self, category: usize, quantity: i64)
        requires
            category < old(self)@.len(),
            i64::MIN <= old(self)@[category as int] + quantity <= i64::MAX,
        ensures
            final(self)@ == old(self)@.update(
                category as int,
                (old(self)@[category as int] + quantity) as i64,
            ),
    {
        let q = self.items[category] + quantity;
        self.items.set(category, q);
    }

    /// Absolute difference between this basket and `actual_basket` in `category`.
    pub fn shortfall(&self, actual_basket: &Basket, category: usize) -> (r: u64)
        requires
            category < self@.len(),
            category < actual_basket@.len(),
        ensures
            r as int == difference(self@, actual_basket@, category as int),
    {
        let expected = self.items[category];
        let actual = actual_basket.items[category];
        if expected >= actual {
            (expected as i128 - actual as i128) as u64
        } else {
            (actual as i128 - expected as i128) as u64
        }
    }

    /// Sum over all categories of `shortfall`.
    pub fn total_shortfall(&self, actual_basket: &Basket) -> (r: u128)
        requires
            self@.len() == actual_basket@.len(),
        ensures
            r as int == total_difference(self@, actual_basket@, self@.len()),
    {
        let mut result: u128 = 0;
        let mut category: usize = 0;
        while category < self.items.len()
            invariant
                self@.len() == actual_basket@.len(),
                category <= self@.len(),
                result as int == total_difference(self@, actual_basket@, category as nat),
            decreases self@.len() - category,
        {
            proof {
                lemma_total_difference_bounds(self@, actual_basket@, (category + 1) as nat);
                let k: int = (category + 1) as int;
                let m: int = u64::MAX as int;
                assert(k * m <= u128::MAX) by (nonlinear_arith)
                    requires
                        0 <= k <= 18446744073709551615,
                        m == 18446744073709551615,
                ;
            }
            let shortfall = self.shortfall(actual_basket, category);
            result = result + shortfall as u128;
            category = category + 1;
        }
        result
    }
}

} // verus!
