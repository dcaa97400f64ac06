use vstd::prelude::*;

verus! {

/// The order in which the catalog lists the files of a directory.
#[derive(Debug, Clone, Copy, PartialEq, Eq, Structural)]
pub enum SortAlgorithm {
    /// By file name, character by character.
    FileName,
    /// By file name, with each run of digits compared by its numeric value.
    FileNameNatural,
    /// By creation time; a file without one comes first.
    CreatedTime,
    /// By modification time; a file without one comes first.
    ModifiedTime,
}

impl Default for SortAlgorithm {
    fn default() -> (r: Self)
        ensures
            r == SortAlgorithm::FileName,
    {
        SortAlgorithm::FileName
    }
}

/// Settings of the viewer.
#[derive(Debug, Clone, Copy)]
pub struct Config {
    /// Smallest window size (width, height) an image is enlarged to.
    pub min_window_size: (u32, u32),
    /// Order of the files in the catalog.
    pub sort_algorithm: SortAlgorithm,
}

impl Default for Config {
    fn default() -> (r: Self)
        ensures
            r.min_window_size == (800u32, 600u32),
            r.sort_algorithm == SortAlgorithm::FileName,
    {
        Config { min_window_size: (800, 600), sort_algorithm: SortAlgorithm::FileName }
    }
}

} // verus!
