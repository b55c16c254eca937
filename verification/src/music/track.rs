use vstd::prelude::*;

verus! {

/// A music track.
#[derive(Clone, Debug, Default, PartialEq, Eq)]
pub struct Track {
    /// The name of the band the track is filed under.
    pub band: String,
    /// The display name of the track.
    pub name: String,
    /// The normalised name used for searching.
    pub text: String,
    /// The path of the audio file.
    pub path: String,
}

/// A track as plain values.
pub ghost struct TrackModel {
    pub band: Seq<char>,
    pub name: Seq<char>,
    pub text: Seq<char>,
    pub path: Seq<char>,
}

impl View for Track {
    type V = TrackModel;

    open spec fn view(&self) -> TrackModel {
        TrackModel { band: self.band@, name: self.name@, text: self.text@, path: self.path@ }
    }
}

} // verus!
