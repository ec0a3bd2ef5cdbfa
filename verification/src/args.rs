use vstd::prelude::*;

verus! {

/// The command-line surface: which action to run, and the optional
/// version and path that narrow it.
pub struct Args {
    pub headless: bool,
    pub install: bool,
    pub reinstall: bool,
    pub uninstall: bool,
    pub version: Option<String>,
    pub path: Option<String>,
    pub list_versions: bool,
    pub update: bool,
}

} // verus!
