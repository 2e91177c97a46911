//! The values that the command line hands the library.

use vstd::prelude::*;

use crate::override_yaml::Overrides;

verus! {

/// The resolved command-line surface: an optional output path, an
/// optional input path, and the ordered configuration overrides.
pub struct Options {
    pub help: bool,
    pub out_file: Option<String>,
    pub input_file: Option<String>,
    pub config_overrides: Overrides,
}

impl Options {
    /// Options with nothing given.
    pub fn new() -> (r: Options)
        ensures
            !r.help,
            r.out_file is None,
            r.input_file is None,
            r.config_overrides.overrides@.len() == 0,
    {
        Options {
            help: false,
            out_file: None,
            input_file: None,
            config_overrides: Overrides::new(),
        }
    }
}

impl Default for Options {
    /// Options with nothing given.
    fn default() -> (r: Options)
        ensures
            !r.help,
            r.out_file is None,
            r.input_file is None,
            r.config_overrides.overrides@.len() == 0,
    {
        Options::new()
    }
}

} // verus!
