//! A small weekly-journal library: parsing a flat log file into entries,
//! editing a named section inside one entry, and the pure decisions behind
//! deleting and restoring entries. File and console I/O live outside.

pub mod editor;
pub mod entry;
pub mod ops;
pub mod parser;
pub mod text;

use vstd::prelude::*;

verus! {

/// Joins a data directory and a file name with a `/` separator.
pub fn get_file_path(dir: &str, filename: &str) -> (r: String)
    ensures
        r@ == dir@ + "/"@ + filename@,
{
    let mut path = String::from_str(dir);
    path.append("/");
    path.append(filename);
    path
}

} // verus!
