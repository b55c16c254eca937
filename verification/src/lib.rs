//! Indexing and searching a music library organised as bands, albums and tracks.

pub mod music;
pub mod paths;
pub mod text;

pub use music::album::Album;
pub use music::band::Band;
pub use music::cache::MusicCache;
pub use music::track::Track;
pub use music::{MusicIndexer, PlaybackTarget, SearchIntent};
pub use music::playlist::SongPath;
pub use music::scan::{FileTags, RawTrack};
pub use music::search::{Candidate, Check, Stage, Tier};
