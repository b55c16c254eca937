//! The music library model and its searches.

pub mod album;
pub mod band;
pub mod cache;
pub mod laws;
pub mod order;
pub mod purpose;
pub mod playlist;
pub mod scan;
pub mod search;
pub mod track;

use vstd::prelude::*;

use crate::text::{occurs_in, lowercase, words, prepared, prepare_name, split_whitespace, strings_view, chars_of, contains_chars};
use album::Album;
use band::Band;
use cache::MusicCache;
use track::Track;

verus! {

/// The values behind a sequence of references.
pub open spec fn derefs<T>(s: Seq<&T>) -> Seq<T> {
    s.map_values(|x: &T| *x)
}

/// Pushing a reference pushes the value behind it.
pub proof fn lemma_derefs_push<T>(s: Seq<&T>, x: &T)
    ensures
        derefs(s.push(x)) == derefs(s).push(*x),
{
    assert(derefs(s.push(x)) =~= derefs(s).push(*x));
}

/// All tracks of a list of albums, album by album.
pub open spec fn album_list_tracks(albums: Seq<Album>) -> Seq<Track> {
    albums.map_values(|a: Album| a.tracks@).flatten()
}

/// All tracks of a list of bands, band by band and album by album.
pub open spec fn band_list_tracks(bands: Seq<Band>) -> Seq<Track> {
    bands.map_values(|b: Band| album_list_tracks(b.albums@)).flatten()
}

/// Flattening the first `i + 1` mapped elements adds the mapping of element `i`.
pub proof fn lemma_flatten_take_step<X, Y>(s: Seq<X>, f: spec_fn(X) -> Seq<Y>, i: int)
    requires
        0 <= i < s.len(),
    ensures
        s.take(i + 1).map_values(f).flatten() == s.take(i).map_values(f).flatten() + f(s[i]),
{
    assert(s.take(i + 1).map_values(f) =~= s.take(i).map_values(f).push(f(s[i])));
    s.take(i).map_values(f).lemma_flatten_push(f(s[i]));
}

/// What a search selected for playback.
#[derive(Debug, Clone)]
pub enum PlaybackTarget<'a> {
    Band(Vec<&'a Band>),
    Album(Vec<&'a Album>),
    Tracks(Vec<&'a Track>),
    Nothing,
}

impl<'a> PlaybackTarget<'a> {
    /// Every track of the target, in order: the tracks themselves, or those of
    /// each album, or those of each album of each band.
    pub open spec fn track_values(self) -> Seq<Track> {
        match self {
            PlaybackTarget::Band(bands) => band_list_tracks(derefs(bands@)),
            PlaybackTarget::Album(albums) => album_list_tracks(derefs(albums@)),
            PlaybackTarget::Tracks(tracks) => derefs(tracks@),
            PlaybackTarget::Nothing => Seq::empty(),
        }
    }

    /// The tracks of one album appended to `out`.
    fn push_album_tracks(out: &mut Vec<&'a Track>, album: &'a Album)
        ensures
            derefs(final(out)@) == derefs(old(out)@) + album.tracks@,
    {
        let mut k: usize = 0;
        while k < album.tracks.len()
            invariant
                k <= album.tracks.len(),
                derefs(out@) == derefs(old(out)@) + album.tracks@.take(k as int),
            decreases album.tracks.len() - k,
        {
            let ghost before = derefs(out@);
            out.push(&album.tracks[k]);
            assert(derefs(out@) =~= before.push(album.tracks@[k as int]));
            assert(album.tracks@.take(k + 1) =~= album.tracks@.take(k as int).push(
                album.tracks@[k as int],
            ));
            k = k + 1;
        }
        assert(album.tracks@.take(album.tracks.len() as int) =~= album.tracks@);
    }

    /// The tracks of a list of albums appended to `out`.
    fn push_albums_tracks(out: &mut Vec<&'a Track>, albums: &Vec<&'a Album>)
        ensures
            derefs(final(out)@) == derefs(old(out)@) + album_list_tracks(derefs(albums@)),
    {
        let ghost f = |a: Album| a.tracks@;
        let ghost als = derefs(albums@);
        let mut j: usize = 0;
        while j < albums.len()
            invariant
                j <= albums.len(),
                als == derefs(albums@),
                f == (|a: Album| a.tracks@),
                derefs(out@) == derefs(old(out)@) + als.take(j as int).map_values(f).flatten(),
            decreases albums.len() - j,
        {
            Self::push_album_tracks(out, albums[j]);
            proof {
                lemma_flatten_take_step(als, f, j as int);
            }
            assert(derefs(out@) =~= derefs(old(out)@) + als.take(j + 1).map_values(f).flatten());
            j = j + 1;
        }
        assert(als.take(albums.len() as int) =~= als);
    }

    /// The tracks of a list of bands appended to `out`.
    fn push_bands_tracks(out: &mut Vec<&'a Track>, bands: &Vec<&'a Band>)
        ensures
            derefs(final(out)@) == derefs(old(out)@) + band_list_tracks(derefs(bands@)),
    {
        let ghost f = |b: Band| album_list_tracks(b.albums@);
        let ghost bs = derefs(bands@);
        let mut i: usize = 0;
        while i < bands.len()
            invariant
                i <= bands.len(),
                bs == derefs(bands@),
                f == (|b: Band| album_list_tracks(b.albums@)),
                derefs(out@) == derefs(old(out)@) + bs.take(i as int).map_values(f).flatten(),
            decreases bands.len() - i,
        {
            let band: &'a Band = bands[i];
            let mut refs: Vec<&'a Album> = Vec::new();
            let mut j: usize = 0;
            while j < band.albums.len()
                invariant
                    j <= band.albums.len(),
                    derefs(refs@) == band.albums@.take(j as int),
                decreases band.albums.len() - j,
            {
                refs.push(&band.albums[j]);
                assert(band.albums@.take(j + 1) =~= band.albums@.take(j as int).push(
                    band.albums@[j as int],
                ));
                assert(derefs(refs@) =~= band.albums@.take(j + 1));
                j = j + 1;
            }
            assert(band.albums@.take(band.albums.len() as int) =~= band.albums@);
            Self::push_albums_tracks(out, &refs);
            proof {
                lemma_flatten_take_step(bs, f, i as int);
            }
            assert(derefs(out@) =~= derefs(old(out)@) + bs.take(i + 1).map_values(f).flatten());
            i = i + 1;
        }
        assert(bs.take(bands.len() as int) =~= bs);
    }

    /// Every track of the target: the tracks themselves, or those of each
    /// album, or those of each album of each band, in order.
    pub fn tracks(&self) -> (r: Vec<&'a Track>)
        ensures
            derefs(r@) == self.track_values(),
    {
        let mut out: Vec<&'a Track> = Vec::new();
        assert(derefs(out@) =~= Seq::<Track>::empty());
        match self {
            PlaybackTarget::Nothing => {},
            PlaybackTarget::Tracks(tracks) => {
                let mut k: usize = 0;
                while k < tracks.len()
                    invariant
                        k <= tracks.len(),
                        derefs(out@) == derefs(tracks@).take(k as int),
                    decreases tracks.len() - k,
                {
                    let ghost prev = out@;
                    out.push(tracks[k]);
                    proof {
                        lemma_derefs_push(prev, tracks@[k as int]);
                    }
                    assert(derefs(out@) =~= derefs(tracks@).take(k + 1));
                    k = k + 1;
                }
                assert(derefs(tracks@).take(tracks.len() as int) =~= derefs(tracks@));
            },
            PlaybackTarget::Album(albums) => {
                Self::push_albums_tracks(&mut out, albums);
                assert(derefs(out@) =~= album_list_tracks(derefs(albums@)));
            },
            PlaybackTarget::Band(bands) => {
                Self::push_bands_tracks(&mut out, bands);
                assert(derefs(out@) =~= band_list_tracks(derefs(bands@)));
            },
        }
        out
    }

    /// Every track of the target, consuming it.
    pub fn into_tracks(self) -> (r: Vec<&'a Track>)
        ensures
            derefs(r@) == self.track_values(),
    {
        match self {
            PlaybackTarget::Tracks(tracks) => tracks,
            other => other.tracks(),
        }
    }
}


/// What a user asks the library for.
#[derive(Debug, Clone, PartialEq, Eq)]
pub enum SearchIntent {
    /// One free-text query matched against bands, then albums, then tracks.
    Global(String),
    /// Separate filters; each one that is given must match.
    Targeted {
        band: Option<String>,
        album: Option<String>,
        track: Option<String>,
        genre: Option<String>,
    },
}

/// The search engine over a scanned library.
pub struct MusicIndexer {
    pub cache: MusicCache,
}

/// The first position at or after `i` whose key is `t`.
pub open spec fn first_from<X>(s: Seq<X>, key: spec_fn(X) -> Seq<char>, t: Seq<char>, i: int) -> Option<int>
    decreases s.len() - i,
{
    if i < 0 || i >= s.len() {
        None
    } else if key(s[i]) == t {
        Some(i)
    } else {
        first_from(s, key, t, i + 1)
    }
}

/// The first band whose search text is `t`.
pub open spec fn band_lookup(bands: Seq<Band>, t: Seq<char>) -> Option<int> {
    first_from(bands, |b: Band| b.text@, t, 0)
}

/// The first album whose search text is `t`.
pub open spec fn album_lookup(albums: Seq<Album>, t: Seq<char>) -> Option<int> {
    first_from(albums, |a: Album| a.text@, t, 0)
}

/// The position found by `first_from` holds `t`, and is within bounds.
pub proof fn lemma_first_from<X>(s: Seq<X>, key: spec_fn(X) -> Seq<char>, t: Seq<char>, i: int)
    requires
        0 <= i,
    ensures
        first_from(s, key, t, i) matches Some(j) ==> i <= j < s.len() && key(s[j]) == t && forall|k: int|
            i <= k < j ==> key(#[trigger] s[k]) != t,
        first_from(s, key, t, i) is None ==> forall|k: int| i <= k < s.len() ==> key(#[trigger] s[k]) != t,
    decreases s.len() - i,
{
    if i < s.len() && key(s[i]) != t {
        lemma_first_from(s, key, t, i + 1);
    }
}

/// The lower-cased words of a free-text query.
pub open spec fn query_terms(q: Seq<char>) -> Seq<Seq<char>> {
    words(q).map_values(|w: Seq<char>| lowercase(w))
}

/// The text a track is matched against: band, album and track search texts
/// separated by single spaces.
pub open spec fn combined_text(b: Band, a: Album, t: Track) -> Seq<char> {
    b.text@ + seq![' '] + a.text@ + seq![' '] + t.text@
}

/// Every term occurs in the combined text of the track.
pub open spec fn matches_terms(terms: Seq<Seq<char>>, b: Band, a: Album, t: Track) -> bool {
    forall|k: int| 0 <= k < terms.len() ==> occurs_in(combined_text(b, a, t), #[trigger] terms[k])
}

/// The tracks of an album that match all terms.
pub open spec fn album_matches(terms: Seq<Seq<char>>, b: Band, a: Album) -> Seq<Track> {
    a.tracks@.filter(|t: Track| matches_terms(terms, b, a, t))
}

/// The tracks of a band that match all terms.
pub open spec fn band_matches(terms: Seq<Seq<char>>, b: Band) -> Seq<Track> {
    b.albums@.map_values(|a: Album| album_matches(terms, b, a)).flatten()
}

/// The tracks of the library that match all terms.
pub open spec fn library_matches(terms: Seq<Seq<char>>, bands: Seq<Band>) -> Seq<Track> {
    bands.map_values(|b: Band| band_matches(terms, b)).flatten()
}

/// The albums of the library, in order, whose search text is `t`.
pub open spec fn albums_named(bands: Seq<Band>, t: Seq<char>) -> Seq<Album> {
    bands.map_values(|b: Band| band_albums_named(b, t)).flatten()
}

/// The albums of a band, in order, whose search text is `t`.
pub open spec fn band_albums_named(b: Band, t: Seq<char>) -> Seq<Album> {
    b.albums@.filter(album_named(t))
}

/// Whether an album's search text is `t`.
pub open spec fn album_named(t: Seq<char>) -> spec_fn(Album) -> bool {
    |a: Album| a.text@ == t
}

/// What a free-text lookup finds: the tracks matching every term of the
/// query, none for a query without words.
pub open spec fn find_result(bands: Seq<Band>, q: Seq<char>) -> Seq<Track> {
    if query_terms(q).len() == 0 {
        Seq::<Track>::empty()
    } else {
        library_matches(query_terms(q), bands)
    }
}

/// The bands, in order, having a genre equal to `g` once both are lower-cased.
pub open spec fn genre_bands(bands: Seq<Band>, g: Seq<char>) -> Seq<Band> {
    bands.filter(|b: Band| has_genre(b, g))
}

/// A band has a genre equal to `g` once both are lower-cased.
pub open spec fn has_genre(b: Band, g: Seq<char>) -> bool {
    exists|k: int| 0 <= k < b.genres@.len() && lowercase(#[trigger] b.genres@[k]@) == lowercase(g)
}

/// Filtering the first `k + 1` elements: the first `k`, then element `k` if kept.
pub proof fn lemma_filter_take_step<X>(s: Seq<X>, p: spec_fn(X) -> bool, k: int)
    requires
        0 <= k < s.len(),
    ensures
        s.take(k + 1).filter(p) == if p(s[k]) {
            s.take(k).filter(p).push(s[k])
        } else {
            s.take(k).filter(p)
        },
{
    reveal_with_fuel(Seq::filter, 1);
    assert(s.take(k + 1).drop_last() =~= s.take(k));
    assert(s.take(k + 1).last() == s[k]);
}

/// Appends the characters of `s` to `v`.
fn append_chars(v: &mut Vec<char>, s: &str)
    ensures
        final(v)@ == old(v)@ + s@,
{
    let cs = chars_of(s);
    let mut i: usize = 0;
    while i < cs.len()
        invariant
            i <= cs.len(),
            v@ == old(v)@ + cs@.take(i as int),
        decreases cs.len() - i,
    {
        v.push(cs[i]);
        assert(cs@.take(i + 1) =~= cs@.take(i as int).push(cs@[i as int]));
        assert(v@ =~= old(v)@ + cs@.take(i + 1));
        i = i + 1;
    }
    assert(cs@.take(cs.len() as int) =~= cs@);
}

/// Whether every term occurs in `text`.
fn all_occur(text: &Vec<char>, terms: &Vec<Vec<char>>) -> (r: bool)
    ensures
        r == forall|k: int| 0 <= k < terms@.len() ==> occurs_in(text@, #[trigger] terms@[k]@),
{
    let mut k: usize = 0;
    while k < terms.len()
        invariant
            k <= terms.len(),
            forall|m: int| 0 <= m < k ==> occurs_in(text@, #[trigger] terms@[m]@),
        decreases terms.len() - k,
    {
        if !contains_chars(text, &terms[k]) {
            return false;
        }
        k = k + 1;
    }
    true
}

impl MusicIndexer {
    /// Finds the tracks whose combined band, album and track search texts
    /// contain every lower-cased word of the query; none for an empty query.
    pub fn find(&self, query: &str) -> (r: Vec<&Track>)
        ensures
            derefs(r@) == find_result(self.cache.bands@, query@),
    {
        let ws = split_whitespace(query);
        let ghost terms = query_terms(query@);
        let mut tv: Vec<Vec<char>> = Vec::new();
        let mut w: usize = 0;
        while w < ws.len()
            invariant
                w <= ws.len(),
                strings_view(ws@) == words(query@),
                terms == query_terms(query@),
                tv@.len() == w,
                forall|m: int| 0 <= m < w ==> (#[trigger] tv@[m])@ == terms[m],
            decreases ws.len() - w,
        {
            let low = ws[w].as_str().to_lowercase();
            let cs = chars_of(low.as_str());
            assert(ws@[w as int]@ == words(query@)[w as int]);
            tv.push(cs);
            w = w + 1;
        }
        let mut out: Vec<&Track> = Vec::new();
        if tv.len() == 0 {
            assert(derefs(out@) =~= Seq::<Track>::empty());
            return out;
        }
        let bands = &self.cache.bands;
        let ghost fb = |b: Band| band_matches(terms, b);
        let mut i: usize = 0;
        while i < bands.len()
            invariant
                i <= bands.len(),
                bands == &self.cache.bands,
                terms == query_terms(query@),
                tv@.len() == terms.len(),
                forall|m: int| 0 <= m < terms.len() ==> (#[trigger] tv@[m])@ == terms[m],
                fb == (|b: Band| band_matches(terms, b)),
                derefs(out@) == bands@.take(i as int).map_values(fb).flatten(),
            decreases bands.len() - i,
        {
            let band = &bands[i];
            let ghost fa = |a: Album| album_matches(terms, *band, a);
            let ghost before_band = derefs(out@);
            let mut j: usize = 0;
            while j < band.albums.len()
                invariant
                    j <= band.albums.len(),
                    band == &bands@[i as int],
                    tv@.len() == terms.len(),
                    forall|m: int| 0 <= m < terms.len() ==> (#[trigger] tv@[m])@ == terms[m],
                    fa == (|a: Album| album_matches(terms, *band, a)),
                    derefs(out@) == before_band + band.albums@.take(j as int).map_values(fa).flatten(),
                decreases band.albums.len() - j,
            {
                let album = &band.albums[j];
                let ghost pt = |t: Track| matches_terms(terms, *band, *album, t);
                let ghost before_album = derefs(out@);
                let mut k: usize = 0;
                while k < album.tracks.len()
                    invariant
                        k <= album.tracks.len(),
                        album == &band.albums@[j as int],
                        tv@.len() == terms.len(),
                        forall|m: int| 0 <= m < terms.len() ==> (#[trigger] tv@[m])@ == terms[m],
                        pt == (|t: Track| matches_terms(terms, *band, *album, t)),
                        derefs(out@) == before_album + album.tracks@.take(k as int).filter(pt),
                    decreases album.tracks.len() - k,
                {
                    let track = &album.tracks[k];
                    let mut text: Vec<char> = Vec::new();
                    append_chars(&mut text, band.text.as_str());
                    text.push(' ');
                    append_chars(&mut text, album.text.as_str());
                    text.push(' ');
                    append_chars(&mut text, track.text.as_str());
                    assert(text@ =~= combined_text(*band, *album, *track));
                    let ok = all_occur(&text, &tv);
                    proof {
                        lemma_filter_take_step(album.tracks@, pt, k as int);
                        if ok {
                            assert forall|m: int| 0 <= m < terms.len() implies occurs_in(
                                combined_text(*band, *album, *track),
                                #[trigger] terms[m],
                            ) by {
                                assert(tv@[m]@ == terms[m]);
                            }
                        } else {
                            let m = choose|m: int| 0 <= m < tv@.len() && !occurs_in(text@, #[trigger] tv@[m]@);
                            assert(tv@[m]@ == terms[m]);
                        }
                    }
                    if ok {
                        let ghost prev = derefs(out@);
                        out.push(track);
                        assert(derefs(out@) =~= prev.push(*track));
                    }
                    k = k + 1;
                }
                assert(album.tracks@.take(album.tracks.len() as int) =~= album.tracks@);
                proof {
                    lemma_flatten_take_step(band.albums@, fa, j as int);
                }
                assert(derefs(out@) =~= before_band + band.albums@.take(j + 1).map_values(fa).flatten());
                j = j + 1;
            }
            assert(band.albums@.take(band.albums.len() as int) =~= band.albums@);
            proof {
                lemma_flatten_take_step(bands@, fb, i as int);
            }
            assert(derefs(out@) =~= bands@.take(i + 1).map_values(fb).flatten());
            i = i + 1;
        }
        assert(bands@.take(bands.len() as int) =~= bands@);
        out
    }

    /// Finds the bands that have the given genre, compared lower-cased.
    pub fn find_genre(&self, genre: &str) -> (r: Vec<&Band>)
        ensures
            derefs(r@) == genre_bands(self.cache.bands@, genre@),
    {
        let target = genre.to_lowercase();
        let ghost p = |b: Band| has_genre(b, genre@);
        let bands = &self.cache.bands;
        let mut out: Vec<&Band> = Vec::new();
        let mut i: usize = 0;
        while i < bands.len()
            invariant
                i <= bands.len(),
                bands == &self.cache.bands,
                target@ == lowercase(genre@),
                p == (|b: Band| has_genre(b, genre@)),
                derefs(out@) == bands@.take(i as int).filter(p),
            decreases bands.len() - i,
        {
            let band = &bands[i];
            let mut found = false;
            let mut k: usize = 0;
            while k < band.genres.len()
                invariant
                    k <= band.genres.len(),
                    target@ == lowercase(genre@),
                    found == exists|m: int| 0 <= m < k && lowercase(#[trigger] band.genres@[m]@) == lowercase(genre@),
                decreases band.genres.len() - k,
            {
                let g = band.genres[k].as_str().to_lowercase();
                if g == target {
                    found = true;
                }
                k = k + 1;
            }
            proof {
                lemma_filter_take_step(bands@, p, i as int);
            }
            if found {
                let ghost prev = derefs(out@);
                out.push(band);
                assert(derefs(out@) =~= prev.push(*band));
            }
            i = i + 1;
        }
        assert(bands@.take(bands.len() as int) =~= bands@);
        out
    }

    /// The position of the first band whose search text is `target`.
    fn band_position(&self, target: &String) -> (r: Option<usize>)
        ensures
            r matches Some(i) ==> band_lookup(self.cache.bands@, target@) == Some(i as int),
            r is None ==> band_lookup(self.cache.bands@, target@) is None,
    {
        let bands = &self.cache.bands;
        let ghost key = |b: Band| b.text@;
        let mut i: usize = 0;
        while i < bands.len()
            invariant
                i <= bands.len(),
                bands == &self.cache.bands,
                key == (|b: Band| b.text@),
                band_lookup(bands@, target@) == first_from(bands@, key, target@, i as int),
            decreases bands.len() - i,
        {
            if bands[i].text == *target {
                return Some(i);
            }
            i = i + 1;
        }
        None
    }

    /// Finds the first band whose search text equals the normalised name.
    pub fn find_band(&self, band_name: &str) -> (r: Option<&Band>)
        ensures
            r is Some <==> band_lookup(self.cache.bands@, prepared(band_name@)) is Some,
            band_lookup(self.cache.bands@, prepared(band_name@)) matches Some(i) ==> r == Some(
                &self.cache.bands@[i],
            ),
    {
        let target = prepare_name(band_name);
        match self.band_position(&target) {
            Some(i) => {
                proof {
                    lemma_first_from(self.cache.bands@, |b: Band| b.text@, target@, 0);
                }
                Some(&self.cache.bands[i])
            },
            None => None,
        }
    }

    /// Finds the albums, across all bands and in library order, whose search
    /// text equals the normalised album name.
    pub fn find_album(&self, album_name: &str) -> (r: Vec<&Album>)
        ensures
            derefs(r@) == albums_named(self.cache.bands@, prepared(album_name@)),
    {
        let target = prepare_name(album_name);
        let ghost t = target@;
        let ghost f = |b: Band| band_albums_named(b, t);
        let bands = &self.cache.bands;
        let mut out: Vec<&Album> = Vec::new();
        let mut i: usize = 0;
        while i < bands.len()
            invariant
                i <= bands.len(),
                bands == &self.cache.bands,
                t == target@,
                t == prepared(album_name@),
                f == (|b: Band| band_albums_named(b, t)),
                derefs(out@) == bands@.take(i as int).map_values(f).flatten(),
            decreases bands.len() - i,
        {
            let band = &bands[i];
            let ghost p = album_named(t);
            let ghost before = derefs(out@);
            let mut j: usize = 0;
            while j < band.albums.len()
                invariant
                    j <= band.albums.len(),
                    t == target@,
                    p == album_named(t),
                    derefs(out@) == before + band.albums@.take(j as int).filter(p),
                decreases band.albums.len() - j,
            {
                proof {
                    lemma_filter_take_step(band.albums@, p, j as int);
                }
                if band.albums[j].text == target {
                    let ghost prev = out@;
                    out.push(&band.albums[j]);
                    proof {
                        lemma_derefs_push(prev, &band.albums@[j as int]);
                    }
                }
                assert(derefs(out@) =~= before + band.albums@.take(j + 1).filter(p));
                j = j + 1;
            }
            assert(band.albums@.take(band.albums.len() as int) =~= band.albums@);
            assert(f(bands@[i as int]) == band.albums@.filter(p));
            proof {
                lemma_flatten_take_step(bands@, f, i as int);
            }
            i = i + 1;
        }
        assert(bands@.take(bands.len() as int) =~= bands@);
        assert(bands@.map_values(f) =~= bands@.map_values(
            |b: Band| band_albums_named(b, prepared(album_name@)),
        ));
        out
    }

    /// The tracks of the band found by `find_band`: those of its first album
    /// whose search text equals the normalised album name, when one is given,
    /// else those of all its albums.
    pub fn find_track(&self, band_name: &str, album_name: Option<&str>) -> (r: Vec<&Track>)
        ensures
            derefs(r@) == match band_lookup(self.cache.bands@, prepared(band_name@)) {
                Some(i) => match album_name {
                    Some(an) => match album_lookup(self.cache.bands@[i].albums@, prepared(an@)) {
                        Some(j) => self.cache.bands@[i].albums@[j].tracks@,
                        None => Seq::<Track>::empty(),
                    },
                    None => album_list_tracks(self.cache.bands@[i].albums@),
                },
                None => Seq::<Track>::empty(),
            },
    {
        let mut out: Vec<&Track> = Vec::new();
        assert(derefs(out@) =~= Seq::<Track>::empty());
        let band = match self.find_band(band_name) {
            Some(b) => b,
            None => return out,
        };
        let ghost bi = band_lookup(self.cache.bands@, prepared(band_name@))->0;
        match album_name {
            Some(alb_name) => {
                let target = prepare_name(alb_name);
                let ghost key = |a: Album| a.text@;
                let mut j: usize = 0;
                while j < band.albums.len()
                    invariant
                        j <= band.albums.len(),
                        key == (|a: Album| a.text@),
                        band_lookup(self.cache.bands@, prepared(band_name@)) == Some(bi),
                        *band == self.cache.bands@[bi],
                        album_name == Some(alb_name),
                        target@ == prepared(alb_name@),
                        album_lookup(band.albums@, target@) == first_from(band.albums@, key, target@, j as int),
                        derefs(out@) == Seq::<Track>::empty(),
                    decreases band.albums.len() - j,
                {
                    if band.albums[j].text == target {
                        assert(album_lookup(band.albums@, target@) == Some(j as int));
                        PlaybackTarget::push_album_tracks(&mut out, &band.albums[j]);
                        assert(derefs(out@) =~= band.albums@[j as int].tracks@);
                        return out;
                    }
                    j = j + 1;
                }
            },
            None => {
                let mut refs: Vec<&Album> = Vec::new();
                let mut j: usize = 0;
                while j < band.albums.len()
                    invariant
                        j <= band.albums.len(),
                        derefs(refs@) == band.albums@.take(j as int),
                    decreases band.albums.len() - j,
                {
                    let ghost prev = refs@;
                    refs.push(&band.albums[j]);
                    proof {
                        lemma_derefs_push(prev, &band.albums@[j as int]);
                    }
                    assert(derefs(refs@) =~= band.albums@.take(j + 1));
                    j = j + 1;
                }
                assert(band.albums@.take(band.albums.len() as int) =~= band.albums@);
                PlaybackTarget::push_albums_tracks(&mut out, &refs);
                assert(derefs(out@) =~= album_list_tracks(band.albums@));
            },
        }
        out
    }
}

} // verus!
