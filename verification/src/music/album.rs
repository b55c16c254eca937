use vstd::prelude::*;

use super::track::{Track, TrackModel};

verus! {

/// A music album.
#[derive(Clone, Debug, Default, PartialEq, Eq)]
pub struct Album {
    /// The display name of the album.
    pub name: String,
    /// The normalised name used for searching.
    pub text: String,
    /// The tracks of the album.
    pub tracks: Vec<Track>,
}

/// An album as plain values.
pub ghost struct AlbumModel {
    pub name: Seq<char>,
    pub text: Seq<char>,
    pub tracks: Seq<TrackModel>,
}

impl View for Album {
    type V = AlbumModel;

    open spec fn view(&self) -> AlbumModel {
        AlbumModel {
            name: self.name@,
            text: self.text@,
            tracks: self.tracks@.map_values(|t: Track| t@),
        }
    }
}

} // verus!
