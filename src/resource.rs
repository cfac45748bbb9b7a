//! Resources that tasks consume.

use vstd::prelude::*;

verus! {

/// A resource and its value per unit.
pub struct Resource {
    pub name: String,
    pub value_per_unit: u32,
}

/// A quantity of a named resource.
pub struct ResourceRequirement {
    pub name: String,
    pub quantity: u32,
}

/// A task and the resources it needs.
pub struct Task {
    pub description: String,
    pub resources: Vec<ResourceRequirement>,
}

} // verus!
