//! Choice of the monitor to capture.

use vstd::prelude::*;

verus! {

/// The index of the monitor to capture among `number_of_screens` monitors:
/// the preferred one where it names an attached monitor, the first otherwise.
pub open spec fn actual_monitor_index(preferred: Option<usize>, number_of_screens: usize) -> usize {
    match preferred {
        Some(index) if index < number_of_screens => index,
        _ => 0,
    }
}

/// Picks the monitor to capture among the `number_of_screens` attached ones.
///
/// The game's settings keep pointing at a monitor after it has been unplugged,
/// so a preference that is out of bounds falls back to the first monitor.
/// With no monitor attached there is none to pick: the caller has to rule
/// that out first.
pub fn choose_actual_monitor(preferred: Option<usize>, number_of_screens: usize) -> (index: usize)
    requires
        number_of_screens > 0,
    ensures
        index == actual_monitor_index(preferred, number_of_screens),
        index < number_of_screens,
{
    match preferred {
        Some(number) => {
            if number < number_of_screens {
                number
            } else {
                0
            }
        },
        None => 0,
    }
}

} // verus!
