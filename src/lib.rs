use vstd::prelude::*;

pub mod discover;
pub mod generate;
pub mod group;
pub mod path;
pub mod playlist;
pub mod write;

verus! {

/// Why generating playlists failed.
#[derive(Debug, PartialEq, Eq)]
pub enum GenerateError {
    /// The source directory could not be opened.
    Discovery,
    /// A discovered file does not lie under the source directory.
    Path,
    /// The playlist of this name could not be written.
    Write { name: String },
    /// The folder groups `first` and `second` (folders as written, empty for
    /// the source directory) would be written to playlists of one name.
    NameCollision { name: String, first: String, second: String },
}

} // verus!
