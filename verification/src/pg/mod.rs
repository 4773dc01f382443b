//! The decisions of the database jobs; the connections themselves are made by
//! the program around the library.

pub mod pool;
