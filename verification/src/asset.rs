//! Where the files of a song are found.

use vstd::prelude::*;

verus! {

/// A file on this machine, or one to be fetched.
#[derive(Debug, Clone)]
pub enum AssetLocation {
    Local(String),
    Remote { url: String, checksum: Option<String> },
}

/// The audio of a song.
#[derive(Debug, Clone)]
pub struct SongAsset {
    pub audio: AssetLocation,
}

/// The file of a chart.
#[derive(Debug)]
pub struct ChartAsset {
    pub chart_file: AssetLocation,
}

/// The illustration of a song.
#[derive(Debug, Clone)]
pub struct IlluAsset {
    pub illu: AssetLocation,
}

impl AssetLocation {
    /// The path of a local file. A remote file has no path on this machine,
    /// and the question is not to be asked of it.
    pub fn get_local_path(&self) -> (r: Option<String>)
        requires
            *self is Local,
        ensures
            r matches Some(path) && path@ == self->Local_0@,
    {
        match self {
            AssetLocation::Local(path) => Some(path.clone()),
            AssetLocation::Remote { .. } => None,
        }
    }
}

} // verus!
