use vstd::prelude::*;

use super::album::{Album, AlbumModel};

verus! {

/// A band (artist) with its albums.
#[derive(Clone, Debug, Default, PartialEq, Eq)]
pub struct Band {
    /// The directory the band's files were found under.
    pub dir: String,
    /// The display name of the band.
    pub name: String,
    /// The normalised name used for searching.
    pub text: String,
    /// The genres of the band, lower-cased.
    pub genres: Vec<String>,
    /// The albums of the band.
    pub albums: Vec<Album>,
}

/// A band as plain values.
pub ghost struct BandModel {
    pub dir: Seq<char>,
    pub name: Seq<char>,
    pub text: Seq<char>,
    pub genres: Seq<Seq<char>>,
    pub albums: Seq<AlbumModel>,
}

impl View for Band {
    type V = BandModel;

    open spec fn view(&self) -> BandModel {
        BandModel {
            dir: self.dir@,
            name: self.name@,
            text: self.text@,
            genres: self.genres@.map_values(|g: String| g@),
            albums: self.albums@.map_values(|a: Album| a@),
        }
    }
}

} // verus!
