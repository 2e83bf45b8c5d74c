use vstd::prelude::*;

verus! {

/// Notification that the current map has changed, so that whatever shows it
/// reloads it.
pub struct MapSwitchEvent();

} // verus!
