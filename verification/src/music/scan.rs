//! What a rescan does with the files it reads: which files are audio, where a
//! file's band and directory come from, how tracks are merged into the
//! bands, and the final ordering.

use vstd::prelude::*;

use super::album::{Album, AlbumModel};
use super::band::{Band, BandModel};
use super::cache::{
    albums_view, bands_view, dedup_dirs, dedup_stamps, distinct_dirs, lemma_dedup_distinct,
    lemma_dedup_distinct_unchanged, stamps_view, texts_view, tracks_view, MusicCache,
};
use super::order::{sort_items, sorted, stably_sorted};
use super::track::{Track, TrackModel};
use super::{first_from, lemma_filter_take_step};
use super::laws::{
    lemma_library_polished_wf, lemma_merge_all_keeps_wf, lemma_merge_all_paths, lemma_polished_paths,
    library_ordered, library_wf, raw_paths, track_paths,
};
use crate::paths::{
    components, extension, file_name, file_stem, join, opt_chars, parent, path_components,
    path_extension, path_file_name, path_file_stem, path_join, path_parent, path_strip_prefix,
    strip_prefix,
};
use crate::text::{lowercase, prepare_name, prepared, trim, trimmed};

verus! {

/// The tags read from an audio file.
#[derive(Clone, Debug, Default, PartialEq, Eq)]
pub struct FileTags {
    pub artist: Option<String>,
    pub album: Option<String>,
    pub title: Option<String>,
    pub genre: Option<String>,
}

/// A file found by a rescan, with its trimmed tags and the band name and
/// band directory its place under the root suggests.
#[derive(Clone, Debug, Default, PartialEq, Eq)]
pub struct RawTrack {
    pub path: String,
    pub meta_artist: Option<String>,
    pub meta_album: Option<String>,
    pub meta_title: Option<String>,
    pub meta_genre: Option<String>,
    pub path_artist: String,
    pub band_dir: String,
}

/// A raw track as plain values.
pub ghost struct RawModel {
    pub path: Seq<char>,
    pub meta_artist: Option<Seq<char>>,
    pub meta_album: Option<Seq<char>>,
    pub meta_title: Option<Seq<char>>,
    pub meta_genre: Option<Seq<char>>,
    pub path_artist: Seq<char>,
    pub band_dir: Seq<char>,
}

impl View for RawTrack {
    type V = RawModel;

    open spec fn view(&self) -> RawModel {
        RawModel {
            path: self.path@,
            meta_artist: opt_chars(self.meta_artist),
            meta_album: opt_chars(self.meta_album),
            meta_title: opt_chars(self.meta_title),
            meta_genre: opt_chars(self.meta_genre),
            path_artist: self.path_artist@,
            band_dir: self.band_dir@,
        }
    }
}

/// The contents of a list of raw tracks.
pub open spec fn raws_view(v: Seq<RawTrack>) -> Seq<RawModel> {
    v.map_values(|r: RawTrack| r@)
}

/// The extensions of the audio files a rescan reads.
pub open spec fn audio_extensions() -> Seq<Seq<char>> {
    seq!["mp3"@, "flac"@, "wav"@, "m4a"@, "ogg"@, "opus"@]
}

/// A file is read when its lower-cased extension is one of the audio ones.
pub open spec fn is_audio_path(p: Seq<char>) -> bool {
    match path_extension(p) {
        Some(e) => audio_extensions().contains(lowercase(e)),
        None => false,
    }
}

/// An optional text with its surrounding whitespace removed.
pub open spec fn opt_trimmed(o: Option<Seq<char>>) -> Option<Seq<char>> {
    match o {
        Some(s) => Some(trimmed(s)),
        None => None,
    }
}

/// The band name and band directory that the place of `path` under `root`
/// suggests: the first component below the root when the file lies two
/// levels down, the second when it lies deeper, else the directory holding
/// the file.
pub open spec fn place_of(root: Seq<char>, path: Seq<char>) -> (Seq<char>, Seq<char>) {
    let rel = match path_strip_prefix(path, root) {
        Some(r) => r,
        None => path,
    };
    let comps = path_components(rel);
    if comps.len() == 3 {
        (comps[0], path_join(root, comps[0]))
    } else if comps.len() >= 4 {
        (comps[1], path_join(path_join(root, comps[0]), comps[1]))
    } else {
        let artist = match path_parent(path) {
            Some(p) => match path_file_name(p) {
                Some(n) => n,
                None => "Unknown Artist"@,
            },
            None => "Unknown Artist"@,
        };
        let dir = match path_parent(path) {
            Some(p) => p,
            None => root,
        };
        (artist, dir)
    }
}

/// Pieces of a text separated by `sep`, empty pieces included.
pub open spec fn split_on(s: Seq<char>, sep: char) -> Seq<Seq<char>>
    decreases s.len(),
{
    if s.len() == 0 {
        seq![Seq::empty()]
    } else {
        let w = split_on(s.drop_last(), sep);
        if s.last() == sep {
            w.push(Seq::empty())
        } else {
            w.update(w.len() - 1, w.last().push(s.last()))
        }
    }
}

/// There is always at least one piece.
pub proof fn lemma_split_on_nonempty(s: Seq<char>, sep: char)
    ensures
        split_on(s, sep).len() >= 1,
    decreases s.len(),
{
    if s.len() > 0 {
        lemma_split_on_nonempty(s.drop_last(), sep);
    }
}

/// A genre as stored: trimmed and lower-cased.
pub open spec fn clean_genre(part: Seq<char>) -> Seq<char> {
    lowercase(trimmed(part))
}

/// The genres after adding the pieces of a genre tag in order, skipping empty
/// ones, "unknown" and those already present.
pub open spec fn add_genres(genres: Seq<Seq<char>>, parts: Seq<Seq<char>>) -> Seq<Seq<char>>
    decreases parts.len(),
{
    if parts.len() == 0 {
        genres
    } else {
        let prev = add_genres(genres, parts.drop_last());
        let c = clean_genre(parts.last());
        if c.len() > 0 && c != "unknown"@ && !prev.contains(c) {
            prev.push(c)
        } else {
            prev
        }
    }
}

/// An artist tag is used when it is non-empty and does not say "unknown".
pub open spec fn valid_artist(s: Seq<char>) -> bool {
    s.len() > 0 && lowercase(s) != "unknown"@ && lowercase(s) != "unknown artist"@
}

/// The name of the band a raw track goes to.
pub open spec fn artist_name(r: RawModel) -> Seq<char> {
    match r.meta_artist {
        Some(s) => if valid_artist(s) {
            s
        } else {
            r.path_artist
        },
        None => r.path_artist,
    }
}

/// The name of the directory holding the file, or "Unknown Album".
pub open spec fn folder_album_name(path: Seq<char>) -> Seq<char> {
    match path_parent(path) {
        Some(p) => match path_file_name(p) {
            Some(n) => n,
            None => "Unknown Album"@,
        },
        None => "Unknown Album"@,
    }
}

/// The name of the album a raw track goes to.
pub open spec fn album_name(r: RawModel) -> Seq<char> {
    match r.meta_album {
        Some(s) => if s.len() > 0 && lowercase(s) != "unknown"@ {
            s
        } else {
            folder_album_name(r.path)
        },
        None => folder_album_name(r.path),
    }
}

/// The name of the track: its title tag, else the file name without extension.
pub open spec fn track_name(r: RawModel) -> Seq<char> {
    match r.meta_title {
        Some(t) => t,
        None => match path_file_stem(r.path) {
            Some(s) => s,
            None => Seq::empty(),
        },
    }
}

/// The first band whose search text is `t`.
pub open spec fn band_model_lookup(bands: Seq<BandModel>, t: Seq<char>) -> Option<int> {
    first_from(bands, |b: BandModel| b.text, t, 0)
}

/// The first album whose search text is `t`.
pub open spec fn album_model_lookup(albums: Seq<AlbumModel>, t: Seq<char>) -> Option<int> {
    first_from(albums, |a: AlbumModel| a.text, t, 0)
}

/// The bands after one raw track is filed: into the first band whose search
/// text is that of its artist name (a new band at the end when there is
/// none), adding its genres to the band, into the band's first album whose
/// search text is that of its album name (a new album at the end when there
/// is none), as the album's last track.
pub open spec fn merge_one(bands: Seq<BandModel>, r: RawModel) -> Seq<BandModel> {
    let an = artist_name(r);
    let ak = prepared(an);
    let found = band_model_lookup(bands, ak);
    let bs1 = match found {
        Some(_) => bands,
        None => bands.push(
            BandModel { dir: r.band_dir, name: an, text: ak, genres: Seq::empty(), albums: Seq::empty() },
        ),
    };
    let bi = match found {
        Some(i) => i,
        None => bands.len() as int,
    };
    let b = bs1[bi];
    let genres = match r.meta_genre {
        Some(g) => add_genres(b.genres, split_on(g, ',')),
        None => b.genres,
    };
    let aln = album_name(r);
    let alk = prepared(aln);
    let afound = album_model_lookup(b.albums, alk);
    let als1 = match afound {
        Some(_) => b.albums,
        None => b.albums.push(AlbumModel { name: aln, text: alk, tracks: Seq::empty() }),
    };
    let ai = match afound {
        Some(j) => j,
        None => b.albums.len() as int,
    };
    let a = als1[ai];
    let tn = track_name(r);
    let t = TrackModel { band: b.name, name: tn, text: prepared(tn), path: r.path };
    let a2 = AlbumModel { name: a.name, text: a.text, tracks: a.tracks.push(t) };
    let b2 = BandModel {
        dir: b.dir,
        name: b.name,
        text: b.text,
        genres,
        albums: als1.update(ai, a2),
    };
    bs1.update(bi, b2)
}

/// The bands after filing the raw tracks in order.
pub open spec fn merge_all(bands: Seq<BandModel>, raws: Seq<RawModel>) -> Seq<BandModel>
    decreases raws.len(),
{
    if raws.len() == 0 {
        bands
    } else {
        merge_one(merge_all(bands, raws.drop_last()), raws.last())
    }
}

/// An album put in order: same name and text, its tracks sorted by path,
/// tracks with equal paths keeping their order.
pub open spec fn album_polished(a: Album, na: Album) -> bool {
    &&& na.name == a.name
    &&& na.text == a.text
    &&& na.tracks@.to_multiset() == a.tracks@.to_multiset()
    &&& stably_sorted(a.tracks@, na.tracks@)
    &&& sorted(na.tracks@)
}

/// A band put in order: at least the genre "unknown", its albums sorted by
/// search text (albums with equal texts keeping their order) and each album
/// put in order.
pub open spec fn band_polished(b: Band, nb: Band) -> bool {
    &&& nb.dir == b.dir
    &&& nb.name == b.name
    &&& nb.text == b.text
    &&& texts_view(nb.genres@) == if b.genres@.len() == 0 {
        seq!["unknown"@]
    } else {
        texts_view(b.genres@)
    }
    &&& exists|mid: Seq<Album>|
        {
            &&& mid.to_multiset() == b.albums@.to_multiset()
            &&& stably_sorted(b.albums@, mid)
            &&& sorted(mid)
            &&& nb.albums@.len() == mid.len()
            &&& forall|i: int| 0 <= i < mid.len() ==> album_polished(#[trigger] mid[i], nb.albums@[i])
        }
}

/// The bands put in order: each band put in order, then the bands sorted by
/// search text, bands with equal texts keeping their order.
pub open spec fn library_polished(bs: Seq<Band>, nbs: Seq<Band>) -> bool {
    exists|mid: Seq<Band>|
        {
            &&& mid.len() == bs.len()
            &&& forall|i: int| 0 <= i < bs.len() ==> band_polished(#[trigger] bs[i], mid[i])
            &&& nbs.to_multiset() == mid.to_multiset()
            &&& stably_sorted(mid, nbs)
            &&& sorted(nbs)
        }
}


/// Whether the raw track's file is an audio file.
pub open spec fn audio_raw() -> spec_fn(RawModel) -> bool {
    |r: RawModel| is_audio_path(r.path)
}

/// The raw tracks whose file is an audio file, in order.
pub open spec fn audio_raws(raws: Seq<RawModel>) -> Seq<RawModel> {
    raws.filter(audio_raw())
}

/// An optional string with its surrounding whitespace removed.
fn trim_opt(o: &Option<String>) -> (r: Option<String>)
    ensures
        opt_chars(r) == opt_trimmed(opt_chars(*o)),
{
    match o {
        Some(s) => Some(trim(s.as_str())),
        None => None,
    }
}

/// Whether two strings hold the same characters.
fn same_text(a: &String, b: &str) -> (r: bool)
    ensures
        r == (a@ == b@),
{
    *a == b.to_string()
}

/// Pieces of a text separated by `sep`, empty pieces included.
pub fn split_chars(s: &str, sep: char) -> (r: Vec<String>)
    ensures
        texts_view(r@) == split_on(s@, sep),
{
    let chars = crate::text::chars_of(s);
    let mut r: Vec<String> = Vec::new();
    let mut cur = String::new();
    let mut i: usize = 0;
    while i < chars.len()
        invariant
            i <= chars.len(),
            chars@ == s@,
            texts_view(r@).push(cur@) == split_on(chars@.take(i as int), sep),
        decreases chars.len() - i,
    {
        let c = chars[i];
        let ghost p = chars@.take(i + 1);
        let ghost w = split_on(chars@.take(i as int), sep);
        assert(p.drop_last() =~= chars@.take(i as int));
        assert(p.last() == c);
        if c == sep {
            let ghost prev = texts_view(r@);
            let piece = cur;
            r.push(piece);
            cur = String::new();
            assert(texts_view(r@) =~= prev.push(piece@));
            assert(texts_view(r@).push(cur@) =~= w.push(Seq::empty()));
        } else {
            let ghost prev = texts_view(r@);
            cur.push(c);
            assert(texts_view(r@).push(cur@) =~= w.update(w.len() - 1, w.last().push(c)));
        }
        i = i + 1;
    }
    assert(chars@.take(chars.len() as int) =~= s@);
    let ghost prev = texts_view(r@);
    r.push(cur);
    assert(texts_view(r@) =~= prev.push(cur@));
    r
}

fn valid_artist_exec(s: &String) -> (r: bool)
    ensures
        r == valid_artist(s@),
{
    if s.as_str().is_empty() {
        return false;
    }
    let l = s.as_str().to_lowercase();
    !same_text(&l, "unknown") && !same_text(&l, "unknown artist")
}

fn folder_album_name_of(path: &String) -> (r: String)
    ensures
        r@ == folder_album_name(path@),
{
    match parent(path.as_str()) {
        Some(p) => match file_name(p.as_str()) {
            Some(n) => n,
            None => "Unknown Album".to_string(),
        },
        None => "Unknown Album".to_string(),
    }
}

fn artist_name_of(r: &RawTrack) -> (n: String)
    ensures
        n@ == artist_name(r@),
{
    match &r.meta_artist {
        Some(s) => if valid_artist_exec(s) {
            s.clone()
        } else {
            r.path_artist.clone()
        },
        None => r.path_artist.clone(),
    }
}

fn album_name_of(r: &RawTrack) -> (n: String)
    ensures
        n@ == album_name(r@),
{
    match &r.meta_album {
        Some(s) => {
            if !s.as_str().is_empty() {
                let l = s.as_str().to_lowercase();
                if !same_text(&l, "unknown") {
                    return s.clone();
                }
            }
            folder_album_name_of(&r.path)
        },
        None => folder_album_name_of(&r.path),
    }
}

fn track_name_of(r: &RawTrack) -> (n: String)
    ensures
        n@ == track_name(r@),
{
    match &r.meta_title {
        Some(t) => t.clone(),
        None => match file_stem(r.path.as_str()) {
            Some(s) => s,
            None => String::new(),
        },
    }
}

/// The position of the first band whose search text is `key`.
fn band_index(bands: &Vec<Band>, key: &String) -> (r: Option<usize>)
    ensures
        match r {
            Some(i) => band_model_lookup(bands_view(bands@), key@) == Some(i as int),
            None => band_model_lookup(bands_view(bands@), key@) is None,
        },
{
    let ghost bv = bands_view(bands@);
    let ghost k = |b: BandModel| b.text;
    let mut i: usize = 0;
    while i < bands.len()
        invariant
            i <= bands.len(),
            bv == bands_view(bands@),
            k == (|b: BandModel| b.text),
            band_model_lookup(bv, key@) == first_from(bv, k, key@, i as int),
        decreases bands.len() - i,
    {
        assert(bv[i as int].text == bands@[i as int].text@);
        if bands[i].text == *key {
            return Some(i);
        }
        i = i + 1;
    }
    None
}

/// The position of the first album whose search text is `key`.
fn album_index(albums: &Vec<Album>, key: &String) -> (r: Option<usize>)
    ensures
        match r {
            Some(i) => album_model_lookup(albums_view(albums@), key@) == Some(i as int),
            None => album_model_lookup(albums_view(albums@), key@) is None,
        },
{
    let ghost av = albums_view(albums@);
    let ghost k = |a: AlbumModel| a.text;
    let mut i: usize = 0;
    while i < albums.len()
        invariant
            i <= albums.len(),
            av == albums_view(albums@),
            k == (|a: AlbumModel| a.text),
            album_model_lookup(av, key@) == first_from(av, k, key@, i as int),
        decreases albums.len() - i,
    {
        assert(av[i as int].text == albums@[i as int].text@);
        if albums[i].text == *key {
            return Some(i);
        }
        i = i + 1;
    }
    None
}

/// Adds the pieces of a genre tag to the genres.
fn add_genre_parts(genres: &mut Vec<String>, tag: &String)
    ensures
        texts_view(final(genres)@) == add_genres(texts_view(old(genres)@), split_on(tag@, ',')),
{
    let parts = split_chars(tag.as_str(), ',');
    let ghost pv = texts_view(parts@);
    let ghost start = texts_view(genres@);
    let mut k: usize = 0;
    while k < parts.len()
        invariant
            k <= parts.len(),
            pv == texts_view(parts@),
            start == texts_view(old(genres)@),
            texts_view(genres@) == add_genres(start, pv.take(k as int)),
        decreases parts.len() - k,
    {
        assert(pv.take(k + 1).drop_last() =~= pv.take(k as int));
        assert(pv.take(k + 1).last() == parts@[k as int]@);
        let t = trim(parts[k].as_str());
        let c = t.as_str().to_lowercase();
        if !c.as_str().is_empty() && !same_text(&c, "unknown") && !crate::music::cache::contains_string(genres, &c) {
            let ghost prev = texts_view(genres@);
            genres.push(c);
            assert(texts_view(genres@) =~= prev.push(c@));
        }
        k = k + 1;
    }
    assert(pv.take(parts.len() as int) =~= pv);
}

/// Files one raw track into the bands.
fn merge_track(bands: &mut Vec<Band>, r: &RawTrack)
    ensures
        bands_view(final(bands)@) == merge_one(bands_view(old(bands)@), r@),
{
    let ghost rv = r@;
    let ghost bv0 = bands_view(bands@);
    let an = artist_name_of(r);
    let ak = prepare_name(an.as_str());
    let found = band_index(bands, &ak);
    let bi: usize = match found {
        Some(i) => i,
        None => {
            let nb = Band {
                dir: r.band_dir.clone(),
                name: an.clone(),
                text: ak.clone(),
                genres: Vec::new(),
                albums: Vec::new(),
            };
            assert(nb@.genres =~= Seq::<Seq<char>>::empty());
            assert(nb@.albums =~= Seq::<AlbumModel>::empty());
            bands.push(nb);
            assert(bands_view(bands@) =~= bv0.push(
                BandModel { dir: rv.band_dir, name: an@, text: ak@, genres: Seq::empty(), albums: Seq::empty() },
            ));
            bands.len() - 1
        },
    };
    proof {
        super::lemma_first_from(bv0, |b: BandModel| b.text, ak@, 0);
    }
    let ghost bv1 = bands_view(bands@);
    let mut b = bands.remove(bi);
    let ghost b_old = b@;
    assert(b_old == bv1[bi as int]);
    match &r.meta_genre {
        Some(g) => add_genre_parts(&mut b.genres, g),
        None => {},
    }
    let aln = album_name_of(r);
    let alk = prepare_name(aln.as_str());
    let ghost av0 = albums_view(b.albums@);
    let afound = album_index(&b.albums, &alk);
    let ai: usize = match afound {
        Some(j) => j,
        None => {
            let na = Album { name: aln.clone(), text: alk.clone(), tracks: Vec::new() };
            assert(na@.tracks =~= Seq::<TrackModel>::empty());
            b.albums.push(na);
            assert(albums_view(b.albums@) =~= av0.push(
                AlbumModel { name: aln@, text: alk@, tracks: Seq::empty() },
            ));
            b.albums.len() - 1
        },
    };
    proof {
        super::lemma_first_from(av0, |a: AlbumModel| a.text, alk@, 0);
    }
    let ghost av1 = albums_view(b.albums@);
    let mut a = b.albums.remove(ai);
    let ghost a_old = a@;
    assert(a_old == av1[ai as int]);
    let tn = track_name_of(r);
    let tk = prepare_name(tn.as_str());
    let t = Track { band: b.name.clone(), name: tn, text: tk, path: r.path.clone() };
    let ghost tracks_before = tracks_view(a.tracks@);
    a.tracks.push(t);
    assert(tracks_view(a.tracks@) =~= tracks_before.push(t@));
    let ghost a_new = a@;
    let ghost albums_removed = b.albums@;
    b.albums.insert(ai, a);
    assert(albums_view(b.albums@) =~= av1.update(ai as int, a_new));
    let ghost b_new = b@;
    let ghost bands_removed = bands@;
    bands.insert(bi, b);
    assert(bands_view(bands@) =~= bv1.update(bi as int, b_new));
}

/// The album with its tracks sorted by path.
fn polish_album(a: Album) -> (r: Album)
    ensures
        album_polished(a, r),
{
    let Album { name, text, tracks } = a;
    Album { name, text, tracks: sort_items(tracks) }
}

/// The band with at least one genre, its albums sorted by search text and
/// their tracks by path.
fn polish_band(b: Band) -> (r: Band)
    ensures
        band_polished(b, r),
{
    let ghost b0 = b;
    let Band { dir, name, text, genres, albums } = b;
    let mut genres = genres;
    if genres.len() == 0 {
        genres.push("unknown".to_string());
        assert(texts_view(genres@) =~= seq!["unknown"@]);
    }
    let mid = sort_items(albums);
    let ghost midv = mid@;
    let mut out: Vec<Album> = Vec::new();
    for a in it: mid.into_iter()
        invariant
            midv == it.seq(),
            out@.len() == it.index(),
            forall|i: int| 0 <= i < it.index() ==> album_polished(#[trigger] midv[i], out@[i]),
    {
        let ghost i = it.index() as int;
        let pa = polish_album(a);
        out.push(pa);
    }
    let r = Band { dir, name, text, genres, albums: out };
    assert(band_polished(b0, r));
    r
}

/// The bands each put in order, then sorted by search text.
fn polish_bands(bands: Vec<Band>) -> (r: Vec<Band>)
    ensures
        library_polished(bands@, r@),
{
    let ghost bs = bands@;
    let mut mid: Vec<Band> = Vec::new();
    for b in it: bands.into_iter()
        invariant
            bs == it.seq(),
            mid@.len() == it.index(),
            forall|i: int| 0 <= i < it.index() ==> band_polished(#[trigger] bs[i], mid@[i]),
    {
        let pb = polish_band(b);
        mid.push(pb);
    }
    let ghost midv = mid@;
    let r = sort_items(mid);
    assert(library_polished(bs, r@));
    r
}

impl MusicCache {
    /// The second half of a rescan: files the tracks read whose file is an
    /// audio file (see `is_supported_audio`), in order, puts
    /// every band, album and track list in order, and records the directory
    /// times of the scan, each directory once (a later listing of a directory
    /// replaces an earlier one).
    pub fn finish_scan(&mut self, raws: Vec<RawTrack>, current_dirs: Vec<(String, u64)>)
        ensures
            final(self)@.root_path == old(self)@.root_path,
            final(self)@.dirs == dedup_stamps(stamps_view(current_dirs@)),
            distinct_dirs(final(self)@.dirs),
            distinct_dirs(stamps_view(current_dirs@)) ==> final(self)@.dirs == stamps_view(current_dirs@),
            library_wf(old(self)@.bands) ==> library_wf(final(self)@.bands) && library_ordered(final(self).bands@),
            track_paths(final(self)@.bands) == track_paths(old(self)@.bands) + raw_paths(audio_raws(raws_view(raws@))),
            forall|p: Seq<char>|
                #[trigger] track_paths(final(self)@.bands).contains(p) && !track_paths(old(self)@.bands).contains(p)
                    ==> is_audio_path(p),
            exists|pre: Seq<Band>|
                bands_view(pre) == merge_all(old(self)@.bands, audio_raws(raws_view(raws@))) && library_polished(
                    pre,
                    final(self).bands@,
                ),
    {
        let ghost rv = raws_view(raws@);
        let ghost keep = audio_raw();
        let ghost start = bands_view(self.bands@);
        let mut bands: Vec<Band> = Vec::new();
        std::mem::swap(&mut bands, &mut self.bands);
        let mut i: usize = 0;
        while i < raws.len()
            invariant
                i <= raws.len(),
                rv == raws_view(raws@),
                keep == audio_raw(),
                bands_view(bands@) == merge_all(start, rv.take(i as int).filter(keep)),
            decreases raws.len() - i,
        {
            proof {
                lemma_filter_take_step(rv, keep, i as int);
            }
            assert(rv[i as int] == raws@[i as int]@);
            if Self::is_supported_audio(raws[i].path.as_str()) {
                let ghost f = rv.take(i as int).filter(keep);
                merge_track(&mut bands, &raws[i]);
                assert(f.push(rv[i as int]).drop_last() =~= f);
                assert(merge_all(start, f.push(rv[i as int])) == merge_one(merge_all(start, f), rv[i as int]));
            }
            i = i + 1;
        }
        assert(rv.take(raws.len() as int) =~= rv);
        let ghost fr = rv.filter(keep);
        assert(fr == audio_raws(rv));
        let ghost pre = bands@;
        self.bands = polish_bands(bands);
        self.dirs = dedup_dirs(&current_dirs);
        proof {
            lemma_merge_all_paths(start, fr);
            lemma_polished_paths(pre, self.bands@);
            assert forall|p: Seq<char>| raw_paths(fr).contains(p) implies is_audio_path(p) by {
                let m = choose|m: int| 0 <= m < fr.len() && (#[trigger] fr[m]).path == p;
                rv.lemma_filter_pred(keep, m);
            }
            if library_wf(start) {
                lemma_merge_all_keeps_wf(start, fr);
                lemma_library_polished_wf(pre, self.bands@);
            }
            lemma_dedup_distinct(stamps_view(current_dirs@));
            if distinct_dirs(stamps_view(current_dirs@)) {
                lemma_dedup_distinct_unchanged(stamps_view(current_dirs@));
            }
        }
    }

    /// Whether a rescan reads the file: its lower-cased extension is mp3,
    /// flac, wav, m4a, ogg or opus.
    pub fn is_supported_audio(path: &str) -> (r: bool)
        ensures
            r == is_audio_path(path@),
    {
        match extension(path) {
            None => false,
            Some(e) => {
                let l = e.as_str().to_lowercase();
                let r = same_text(&l, "mp3") || same_text(&l, "flac") || same_text(&l, "wav")
                    || same_text(&l, "m4a") || same_text(&l, "ogg") || same_text(&l, "opus");
                assert(audio_extensions()[0] == "mp3"@);
                assert(audio_extensions()[1] == "flac"@);
                assert(audio_extensions()[2] == "wav"@);
                assert(audio_extensions()[3] == "m4a"@);
                assert(audio_extensions()[4] == "ogg"@);
                assert(audio_extensions()[5] == "opus"@);
                r
            },
        }
    }

    /// A file found under `root` with the tags read from it: the tags
    /// trimmed, and the band name and directory its place suggests.
    pub fn raw_track(root: &str, path: &str, tags: &FileTags) -> (r: RawTrack)
        ensures
            r@.path == path@,
            r@.meta_artist == opt_trimmed(opt_chars(tags.artist)),
            r@.meta_album == opt_trimmed(opt_chars(tags.album)),
            r@.meta_title == opt_trimmed(opt_chars(tags.title)),
            r@.meta_genre == opt_trimmed(opt_chars(tags.genre)),
            (r@.path_artist, r@.band_dir) == place_of(root@, path@),
    {
        let rel = match strip_prefix(path, root) {
            Some(r) => r,
            None => path.to_string(),
        };
        let comps = components(rel.as_str());
        let path_artist: String;
        let band_dir: String;
        if comps.len() == 3 {
            path_artist = comps[0].clone();
            band_dir = join(root, comps[0].as_str());
        } else if comps.len() >= 4 {
            path_artist = comps[1].clone();
            let first = join(root, comps[0].as_str());
            band_dir = join(first.as_str(), comps[1].as_str());
        } else {
            let par = parent(path);
            path_artist = match &par {
                Some(p) => match file_name(p.as_str()) {
                    Some(n) => n,
                    None => "Unknown Artist".to_string(),
                },
                None => "Unknown Artist".to_string(),
            };
            band_dir = match par {
                Some(p) => p,
                None => root.to_string(),
            };
        }
        RawTrack {
            path: path.to_string(),
            meta_artist: trim_opt(&tags.artist),
            meta_album: trim_opt(&tags.album),
            meta_title: trim_opt(&tags.title),
            meta_genre: trim_opt(&tags.genre),
            path_artist,
            band_dir,
        }
    }
}

} // verus!
