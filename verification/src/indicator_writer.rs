//! The Sentiment-Indicator binary, fetched from the server and written
//! into `MQL5/Indicators` so that the EA's `iCustom()` finds it. A missing
//! `Indicators/` folder is created.

use vstd::prelude::*;

verus! {

/// The indicator's file name in `MQL5/Indicators`.
pub const INDICATOR_FILENAME: &'static str = "Sentiment-Indicator.ex5";

/// Why the indicator cannot be written once the folder has been created
/// where it was missing: the path must be a directory.
pub fn indicators_dir_problem(is_dir: bool, display: &str) -> (r: Option<String>)
    ensures
        match r {
            Some(e) => !is_dir && e@ == "indicators path is not a directory: "@ + display@,
            None => is_dir,
        },
{
    if is_dir {
        None
    } else {
        let mut e = String::from_str("indicators path is not a directory: ");
        e.append(display);
        Some(e)
    }
}

} // verus!
