//! Fixed contents of the helper files written beside the state
//! directory: an ignore file and the explanatory notes.  Writing them to
//! disk is the caller's job.

use vstd::prelude::*;

verus! {

/// The ignore file keeping generated state out of version control.
pub open spec fn gitignore_text() -> Seq<char> {
    ".state/\nactive/\nREADME.md"@
}

/// Renders the ignore file.
pub fn gitignore_content() -> (r: String)
    ensures
        r@ == gitignore_text(),
{
    ".state/\nactive/\nREADME.md".to_owned()
}

/// The note placed in the state directory's parent.
pub open spec fn readme_root_text() -> Seq<char> {
    "This directory stores data for the currently active environment.\nFiles can freely be added here, but do not change the `.state` directory.\nThe `active` directory can be modified, but note changes may be overwritten."@
}

/// Renders the note placed in the state directory's parent.
pub fn readme_root_content() -> (r: String)
    ensures
        r@ == readme_root_text(),
{
    "This directory stores data for the currently active environment.\nFiles can freely be added here, but do not change the `.state` directory.\nThe `active` directory can be modified, but note changes may be overwritten.".to_owned()
}

/// The note placed in the state directory.
pub open spec fn readme_state_text() -> Seq<char> {
    "This directory should not be modified. It stores the links and env variables\nactivated in the current environment."@
}

/// Renders the note placed in the state directory.
pub fn readme_state_content() -> (r: String)
    ensures
        r@ == readme_state_text(),
{
    "This directory should not be modified. It stores the links and env variables\nactivated in the current environment.".to_owned()
}

/// The note placed in the active-artifacts directory.
pub open spec fn readme_active_text() -> Seq<char> {
    "This directory contains the activated config, such as env variables, that\nare activated in the current environment. These files are safe to consume."@
}

/// Renders the note placed in the active-artifacts directory.
pub fn readme_active_content() -> (r: String)
    ensures
        r@ == readme_active_text(),
{
    "This directory contains the activated config, such as env variables, that\nare activated in the current environment. These files are safe to consume.".to_owned()
}

} // verus!
