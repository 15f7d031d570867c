//! The options of a run.
use vstd::prelude::*;

verus! {

/// The compression scheme files are stored with.
#[derive(PartialEq, Eq, Structural, Debug, Clone, Copy)]
pub enum CompressionArg {
    Lzfse,
    Zlib,
    Lzvn,
}

/// What a run is asked to do: the profiles and targets whose directories are
/// compressed (all that are found when no profile is given), and the scheme.
#[derive(Debug, Clone)]
pub struct Cli {
    pub profiles: Vec<String>,
    pub targets: Vec<String>,
    pub compression: CompressionArg,
}

impl Cli {
    /// Without a profile filter the work directories are found by scanning
    /// the output root; with one they are built from the filters.
    pub fn uses_discovery(&self) -> (r: bool)
        ensures
            r == (self.profiles@.len() == 0),
    {
        self.profiles.len() == 0
    }
}

impl Default for Cli {
    /// No profile or target filter, and LZFSE compression.
    fn default() -> (r: Cli)
        ensures
            r.profiles@.len() == 0,
            r.targets@.len() == 0,
            r.compression == CompressionArg::Lzfse,
    {
        Cli { profiles: Vec::new(), targets: Vec::new(), compression: CompressionArg::Lzfse }
    }
}

} // verus!
