//! Where a screenshot is saved, and under which name.

use vstd::prelude::*;
use vstd::string::StringExecFns;

verus! {

/// The directory that screenshots are queued in, as the names to follow from
/// the working directory down to it: `data/queue`.
pub open spec fn queue_directory_below_working_directory() -> Seq<Seq<char>> {
    seq!["data"@, "queue"@]
}

/// Lists the names that lead from the working directory to the directory that
/// screenshots are queued in, outermost first.
pub fn queue_directory_components() -> (components: Vec<&'static str>)
    ensures
        components@.map_values(|name: &'static str| name@)
            == queue_directory_below_working_directory(),
{
    let mut components: Vec<&'static str> = Vec::new();
    components.push("data");
    components.push("queue");
    assert(components@.map_values(|name: &'static str| name@)
        =~= queue_directory_below_working_directory());
    components
}

/// The `strftime` pattern by which the caller writes out the local time of a
/// screenshot: year, month, day, hour, minute and second, joined by hyphens.
pub const TIME_STAMP_PATTERN: &'static str = "%Y-%m-%d-%H-%M-%S";

/// The extension of a screenshot's file name.
pub const IMAGE_EXTENSION: &'static str = ".png";

/// Names the image file of a screenshot taken at `time_stamp`, the local time
/// written out by [`TIME_STAMP_PATTERN`]: `YYYY-MM-DD-HH-MM-SS.png`.
pub fn screenshot_file_name(time_stamp: &str) -> (name: String)
    ensures
        name@ == time_stamp@ + IMAGE_EXTENSION@,
{
    let mut name = String::from_str(time_stamp);
    name.append(IMAGE_EXTENSION);
    name
}

} // verus!
