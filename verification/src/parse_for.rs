//! Option stores: types whose fields receive the option values of a parse.

use crate::errors::InvalidOption;
use crate::opt_cfg::OptCfg;
use vstd::prelude::*;

verus! {

/// Requires the method to make a [OptCfg] vector from the struct instance which implements this
/// trait.
pub trait OptStore {
    /// Makes a vector of [OptCfg] struct instances from the field definitions and `opt` field
    /// attributes of the struct instance.
    fn make_opt_cfgs(&self) -> Vec<OptCfg>;

    /// Sets the values of the stored options to the fields in this struct.
    /// Each entry pairs a store key of [OptCfg] with the option arguments stored under it.
    fn set_field_values(&mut self, m: &[(String, Vec<String>)]) -> Result<(), InvalidOption>;
}

impl OptCfg {
    /// Makes a vector of [OptCfg] struct instances from the field definitions and `opt` field
    /// attributes of the option store, by its [OptStore::make_opt_cfgs].
    ///
    /// The result is what the store's own `make_opt_cfgs` gives for it, and the store is left
    /// as it was.
    pub fn make_cfgs_for<T: OptStore>(opt_store: &mut T) -> (r: Vec<OptCfg>)
        ensures
            call_ensures(T::make_opt_cfgs, (&*old(opt_store),), r),
            *final(opt_store) == *old(opt_store),
    {
        let make = T::make_opt_cfgs;
        make(&*opt_store)
    }
}

} // verus!
