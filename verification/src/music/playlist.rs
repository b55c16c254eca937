//! The M3U playlist for a playback target.

use vstd::prelude::*;

use super::order::{sort_items, sorted, stably_sorted, Ordered};
use super::track::Track;
use super::{derefs, MusicIndexer, PlaybackTarget};
use crate::paths::{file_name, path_file_name, path_less, path_lt};
use crate::text::chars_of;

verus! {

/// The path of a song in a playlist, ordered as paths are.
#[derive(Clone, Debug, PartialEq, Eq)]
pub struct SongPath {
    pub path: String,
}

impl Ordered for SongPath {
    open spec fn before(a: Self, b: Self) -> bool {
        path_less(a.path@, b.path@)
    }

    fn less(&self, other: &Self) -> (r: bool) {
        path_lt(self.path.as_str(), other.path.as_str())
    }
}

/// A path with its backslashes turned into slashes.
pub open spec fn unix_path(p: Seq<char>) -> Seq<char> {
    p.map_values(|c: char| if c == '\\' { '/' } else { c })
}

/// The playlist lines of one song: its file name and its path, or nothing
/// when the path has no file name.
pub open spec fn m3u_entry(p: Seq<char>) -> Seq<char> {
    match path_file_name(p) {
        Some(n) => "#EXTINF:-1,"@ + n + "\n"@ + unix_path(p) + "\n"@,
        None => Seq::empty(),
    }
}

/// A playlist of the songs in order.
pub open spec fn m3u_text(songs: Seq<SongPath>) -> Seq<char> {
    "#EXTM3U\n"@ + songs.map_values(|s: SongPath| m3u_entry(s.path@)).flatten()
}

/// The song paths of tracks.
pub open spec fn song_paths(ts: Seq<Track>) -> Seq<SongPath> {
    ts.map_values(|t: Track| SongPath { path: t.path })
}

/// Appends the characters of `s`.
fn push_text(out: &mut String, s: &str)
    ensures
        final(out)@ == old(out)@ + s@,
{
    let cs = chars_of(s);
    let mut i: usize = 0;
    while i < cs.len()
        invariant
            i <= cs.len(),
            out@ == old(out)@ + cs@.take(i as int),
        decreases cs.len() - i,
    {
        out.push(cs[i]);
        assert(out@ =~= old(out)@ + cs@.take(i + 1));
        i = i + 1;
    }
    assert(cs@.take(cs.len() as int) =~= cs@);
}

/// Appends the path with its backslashes turned into slashes.
fn push_unix_path(out: &mut String, p: &str)
    ensures
        final(out)@ == old(out)@ + unix_path(p@),
{
    let cs = chars_of(p);
    let mut i: usize = 0;
    while i < cs.len()
        invariant
            i <= cs.len(),
            cs@ == p@,
            out@ == old(out)@ + unix_path(cs@.take(i as int)),
        decreases cs.len() - i,
    {
        let c = cs[i];
        if c == '\\' {
            out.push('/');
        } else {
            out.push(c);
        }
        assert(unix_path(cs@.take(i + 1)) =~= unix_path(cs@.take(i as int)).push(
            if c == '\\' { '/' } else { c },
        ));
        assert(out@ =~= old(out)@ + unix_path(cs@.take(i + 1)));
        i = i + 1;
    }
    assert(cs@.take(cs.len() as int) =~= cs@);
}

impl MusicIndexer {
    /// The M3U playlist of the target's tracks: the header line, then for
    /// each track, sorted by path (tracks with equal paths in their order),
    /// its file name and its path with slashes.
    pub fn playlist_text(target: PlaybackTarget<'_>) -> (r: String)
        ensures
            exists|songs: Seq<SongPath>|
                {
                    &&& songs.to_multiset() == song_paths(target.track_values()).to_multiset()
                    &&& sorted(songs)
                    &&& stably_sorted(song_paths(target.track_values()), songs)
                    &&& r@ == m3u_text(songs)
                },
    {
        let ghost tv = target.track_values();
        let tracks = target.into_tracks();
        let mut songs: Vec<SongPath> = Vec::new();
        let mut i: usize = 0;
        while i < tracks.len()
            invariant
                i <= tracks.len(),
                derefs(tracks@) == tv,
                songs@ == song_paths(tv.take(i as int)),
            decreases tracks.len() - i,
        {
            songs.push(SongPath { path: tracks[i].path.clone() });
            assert(songs@ =~= song_paths(tv.take(i + 1)));
            i = i + 1;
        }
        assert(tv.take(tracks.len() as int) =~= tv);
        let sorted_songs = sort_items(songs);
        let ghost ss = sorted_songs@;
        let ghost f = |s: SongPath| m3u_entry(s.path@);
        let mut out = String::new();
        push_text(&mut out, "#EXTM3U\n");
        let mut k: usize = 0;
        while k < sorted_songs.len()
            invariant
                k <= sorted_songs.len(),
                ss == sorted_songs@,
                f == (|s: SongPath| m3u_entry(s.path@)),
                out@ == "#EXTM3U\n"@ + ss.take(k as int).map_values(f).flatten(),
            decreases sorted_songs.len() - k,
        {
            let p = &sorted_songs[k].path;
            let ghost before = out@;
            match file_name(p.as_str()) {
                Some(n) => {
                    push_text(&mut out, "#EXTINF:-1,");
                    push_text(&mut out, n.as_str());
                    push_text(&mut out, "\n");
                    push_unix_path(&mut out, p.as_str());
                    push_text(&mut out, "\n");
                    assert(out@ =~= before + f(ss[k as int]));
                },
                None => {
                    assert(out@ =~= before + f(ss[k as int]));
                },
            }
            proof {
                super::lemma_flatten_take_step(ss, f, k as int);
            }
            assert(out@ =~= "#EXTM3U\n"@ + ss.take(k + 1).map_values(f).flatten());
            k = k + 1;
        }
        assert(ss.take(sorted_songs.len() as int) =~= ss);
        assert(out@ == m3u_text(ss));
        out
    }
}

} // verus!
