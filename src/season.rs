//! Fixed dimensions of a planning season.

use vstd::prelude::*;

verus! {

/// Number of weeks in one (cyclic) season.
pub const SEASON_LENGTH: usize = 52;

/// Number of candidate plans kept by the evolutionary search.
pub const POPULATION_SIZE: usize = 50;

/// Largest number of beds a catalog may describe.
pub const MAX_BEDS: usize = 1000000;

/// Largest number of basket categories a catalog may describe.
pub const MAX_CATEGORIES: usize = 1000000;

} // verus!
