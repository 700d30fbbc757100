//! The `Validate` trait that generated message types implement for their
//! XSD facet checks.

use vstd::prelude::*;

verus! {

/// Validation of a value against its XSD facets. The default accepts every
/// value, so that unrestricted types satisfy the trait with an empty impl.
pub trait Validate {
    /// Validate the value against its XSD facets.
    fn validate(&self) -> (r: Result<(), String>)
        default_ensures
            r is Ok,
    {
        Ok(())
    }
}

} // verus!
