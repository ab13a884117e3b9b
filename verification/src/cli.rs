use vstd::prelude::*;

verus! {

/// The command-line surface: a blueprint to load and two flags. The
/// argument parser at the binary's edge fills this in and hands it over.
pub struct Args {
    /// Path of the blueprint to load.
    pub blueprint: String,

    /// Just parse and validate the blueprint, terminate then.
    pub only_validate: bool,

    /// Require every sandbox module to parse successfully.
    pub strict: bool,
}

} // verus!
