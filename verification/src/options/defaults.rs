//! The values that a configuration takes where nothing else is given.

use vstd::prelude::*;

verus! {

/// The glob that finds the pages of a site.
pub fn default_glob() -> (glob: String)
    ensures
        glob@ == "**/*.{html}"@,
{
    String::from_str("**/*.{html}")
}

/// The element that is taken as the root of a document.
pub fn default_root_selector() -> (selector: String)
    ensures
        selector@ == "html"@,
{
    String::from_str("html")
}

/// Switches are off unless they are given.
pub fn default_false() -> (flag: bool)
    ensures
        !flag,
{
    false
}

} // verus!
