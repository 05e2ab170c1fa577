pub mod disk_tree;
pub mod forest;
pub mod intent;
pub mod names;
pub mod plan;
pub mod probe;
pub mod smbios;

use vstd::prelude::*;

verus! {

/// The version of the plan format written into every new plan.
pub const SCHEMA_VERSION: &'static str = "1";

} // verus!
