//! Generic equipment management applicable to
//! [members](crate::member::Member).

use vstd::prelude::*;

use crate::member::Properties;

verus! {

/// Equipment trait to interoperate with a [`Member`](crate::member::Member)'s
/// [`Properties`](crate::member::Properties).
pub trait Equipment: Sized {
    type Properties: Properties;

    /// The total property values generated from the used equipment, at spec
    /// level.
    spec fn spec_associated_properties(&self) -> Self::Properties;

    /// Returns the total property values generated from the used equipment.
    ///
    /// This value is summed with a member's base properties by
    /// [`Member::final_properties()`](crate::member::Member::final_properties).
    fn associated_properties(&self) -> (p: Self::Properties)
        ensures
            p == self.spec_associated_properties(),
    ;
}

} // verus!
