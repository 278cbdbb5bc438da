//! The server's user-facing configuration, as handed over at
//! initialization.

use vstd::prelude::*;

verus! {

/// Initialization options: whether the scanner also looks at scripts
/// bundled inside resolved dependency packages, and whether semantic
/// tokens are wanted. Either may be absent.
#[derive(Debug, PartialEq, Eq)]
pub struct Config {
    pub scan_cmake_in_package: Option<bool>,
    pub semantic_token: Option<bool>,
}

impl Config {
    /// Whether to scan scripts inside resolved packages; on by default.
    pub open spec fn spec_scan_in_package(self) -> bool {
        match self.scan_cmake_in_package {
            Some(b) => b,
            None => true,
        }
    }

    /// Whether to scan scripts inside resolved packages; on by default.
    pub fn is_scan_cmake_in_package(&self) -> (r: bool)
        ensures
            r == self.spec_scan_in_package(),
    {
        match self.scan_cmake_in_package {
            Some(b) => b,
            None => true,
        }
    }
}

impl Default for Config {
    /// Package scanning on, semantic tokens off.
    fn default() -> (r: Self)
        ensures
            r.scan_cmake_in_package == Some(true),
            r.semantic_token == Some(false),
    {
        Config { scan_cmake_in_package: Some(true), semantic_token: Some(false) }
    }
}

} // verus!
