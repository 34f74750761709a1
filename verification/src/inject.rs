//! Handing text to other programs: which Wayland display they must be told
//! about.

use vstd::prelude::*;

verus! {

/// The `WAYLAND_DISPLAY` a spawned Wayland client must be given: the parked
/// one when our own is unset, nothing to change otherwise.
pub fn child_wayland_display<T>(own: Option<T>, parked: Option<T>) -> (r: Option<T>)
    ensures
        own is None ==> r == parked,
        own is Some ==> r is None,
{
    match own {
        None => parked,
        Some(_) => None,
    }
}

} // verus!
