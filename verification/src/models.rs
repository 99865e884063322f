//! Songs as the collection holds them.

use vstd::prelude::*;
use crate::asset::{IlluAsset, SongAsset};
use crate::chart::Chart;

verus! {

/// What is known of a song: its length in seconds and its tempo in
/// thousandths of a beat per minute.
#[derive(Clone, Debug)]
pub struct SongMeta {
    pub title: String,
    pub artist: String,
    pub length: u64,
    pub bpm: u32,
}

/// A song with its charts.
#[derive(Clone, Debug)]
pub struct Song {
    pub asset: SongAsset,
    pub meta: SongMeta,
    pub charts: Vec<Chart>,
    pub illu: Option<IlluAsset>,
}

} // verus!
