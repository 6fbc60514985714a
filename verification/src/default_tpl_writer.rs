//! The keyed `Default.tpl`, which MT5 applies to every new chart so that
//! the EA attaches without a drag. The server inlines the key; the bytes
//! are written as they are. A missing `templates/` folder is created.

use vstd::prelude::*;

verus! {

/// The template's file name in `templates/`.
pub const TEMPLATE_FILENAME: &'static str = "Default.tpl";

/// Why the template cannot be written once the folder has been created
/// where it was missing: the path must be a directory.
pub fn templates_dir_problem(is_dir: bool, display: &str) -> (r: Option<String>)
    ensures
        match r {
            Some(e) => !is_dir && e@ == "templates path is not a directory: "@ + display@,
            None => is_dir,
        },
{
    if is_dir {
        None
    } else {
        let mut e = String::from_str("templates path is not a directory: ");
        e.append(display);
        Some(e)
    }
}

} // verus!
