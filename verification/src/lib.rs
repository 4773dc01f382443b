//! Sorting OpenStreetMap elements into points of interest: tag lookup,
//! class and field extraction driven by YAML schemas, and the row and
//! feature data that the loader sends to PostgreSQL and GeoJSON.

pub mod fs;
pub mod osmpbf;
pub mod pg;
pub mod process;
pub mod schema;
pub mod utils;
