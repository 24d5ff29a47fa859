//! A bookmark manager engine: URLs grouped under free-text contexts, found
//! again by fuzzy terms, and kept in a local and a global scope.

pub mod fuzzy;
pub mod log;
pub mod config;
pub mod module;
pub mod ops;
pub mod storage;
pub mod url_scanner;
