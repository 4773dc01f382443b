//! The command line of the loader.

use vstd::prelude::*;

verus! {

/// The arguments: the database URI, the OSM PBF file and the directory of
/// schema YAML files.
#[derive(Debug, Clone, PartialEq)]
pub struct Cli {
    pub uri: String,
    pub osmpbf: String,
    pub schema_yamls: String,
}

} // verus!
