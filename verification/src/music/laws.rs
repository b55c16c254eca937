//! Properties of the library that span its operations.

use vstd::prelude::*;

use super::album::AlbumModel;
use super::band::{Band, BandModel};
use super::album::Album;
use super::order::{sorted, stably_sorted, Ordered};
use super::cache::{bands_view, texts_view};
use super::cache::{
    changed_dirs, deleted_dirs, evict_album, obsolete_path, evict_band, evict_bands, has_dir, obsolete,
    root_changed, scan_deleted, scan_updated, CacheModel, DirStamp,
};
use super::scan::{
    add_genres, album_model_lookup, album_polished, album_name, artist_name, band_model_lookup, band_polished, clean_genre,
    library_polished, merge_all, merge_one, split_on, track_name, RawModel,
};
use super::track::{Track, TrackModel};
use super::search::{
    normalised, opt_view, search_outcome, stage_is, valid_plan, FiltersView, Stage, Tier,
};
use super::{PlaybackTarget, SearchIntent};
use super::{
    album_matches, band_lookup, band_matches, combined_text, find_result, lemma_first_from, library_matches,
    matches_terms, query_terms,
};
use crate::text::{lemma_prepared_idempotent, lemma_words_concat, lowercase, occurs_in, prepared, words};

verus! {

/// Searching for a band by its display name, or by its search text, finds
/// the first band with that search text, when the band's search text is
/// its normalised name.
pub proof fn lemma_band_found_by_name(bands: Seq<Band>, i: int)
    requires
        0 <= i < bands.len(),
        bands[i].text@ == prepared(bands[i].name@),
    ensures
        band_lookup(bands, prepared(bands[i].name@)) matches Some(j) && j <= i && bands[j].text@
            == bands[i].text@,
        band_lookup(bands, prepared(bands[i].text@)) == band_lookup(bands, prepared(bands[i].name@)),
{
    lemma_first_from(bands, |b: Band| b.text@, prepared(bands[i].name@), 0);
    lemma_prepared_idempotent(bands[i].name@);
}

/// No two bands share a search text, and within each band no two albums do.
pub open spec fn well_keyed(bs: Seq<BandModel>) -> bool {
    &&& forall|i: int, j: int| 0 <= i < j < bs.len() ==> (#[trigger] bs[i]).text != (#[trigger] bs[j]).text
    &&& forall|i: int| 0 <= i < bs.len() ==> distinct_album_texts(#[trigger] bs[i])
}

/// No two albums of the band share a search text.
pub open spec fn distinct_album_texts(b: BandModel) -> bool {
    forall|i: int, j: int|
        0 <= i < j < b.albums.len() ==> (#[trigger] b.albums[i]).text != (#[trigger] b.albums[j]).text
}

/// Every search text is the normalised display name: of each band, album
/// and track.
pub open spec fn normalised_names(bs: Seq<BandModel>) -> bool {
    forall|i: int| 0 <= i < bs.len() ==> band_normalised(#[trigger] bs[i])
}

/// The search texts of the band, its albums and their tracks are their
/// normalised names.
pub open spec fn band_normalised(b: BandModel) -> bool {
    &&& b.text == prepared(b.name)
    &&& forall|j: int| 0 <= j < b.albums.len() ==> album_normalised(#[trigger] b.albums[j])
}

/// The search texts of the album and its tracks are their normalised names.
pub open spec fn album_normalised(a: AlbumModel) -> bool {
    &&& a.text == prepared(a.name)
    &&& forall|k: int| 0 <= k < a.tracks.len() ==> (#[trigger] a.tracks[k]).text == prepared(a.tracks[k].name)
}

/// Filing a track keeps band and album search texts distinct and keeps
/// every search text the normalised name.
pub proof fn lemma_merge_one_keeps_keys(bs: Seq<BandModel>, r: RawModel)
    requires
        well_keyed(bs),
        normalised_names(bs),
    ensures
        well_keyed(merge_one(bs, r)),
        normalised_names(merge_one(bs, r)),
{
    let an = artist_name(r);
    let ak = prepared(an);
    let found = band_model_lookup(bs, ak);
    lemma_first_from(bs, |b: BandModel| b.text, ak, 0);
    let bs1 = match found {
        Some(_) => bs,
        None => bs.push(
            BandModel { dir: r.band_dir, name: an, text: ak, genres: Seq::empty(), albums: Seq::empty() },
        ),
    };
    let bi = match found {
        Some(i) => i,
        None => bs.len() as int,
    };
    assert(well_keyed(bs1));
    assert(normalised_names(bs1)) by {
        assert forall|i: int| 0 <= i < bs1.len() implies band_normalised(#[trigger] bs1[i]) by {
            if i < bs.len() {
                assert(bs1[i] == bs[i]);
            }
        }
    }
    let b = bs1[bi];
    let aln = album_name(r);
    let alk = prepared(aln);
    let afound = album_model_lookup(b.albums, alk);
    lemma_first_from(b.albums, |a: AlbumModel| a.text, alk, 0);
    let als1 = match afound {
        Some(_) => b.albums,
        None => b.albums.push(AlbumModel { name: aln, text: alk, tracks: Seq::empty() }),
    };
    let ai = match afound {
        Some(j) => j,
        None => b.albums.len() as int,
    };
    let a = als1[ai];
    assert(forall|i: int, j: int|
        0 <= i < j < als1.len() ==> (#[trigger] als1[i]).text != (#[trigger] als1[j]).text);
    assert forall|j: int| 0 <= j < als1.len() implies album_normalised(#[trigger] als1[j]) by {
        if j < b.albums.len() {
            assert(als1[j] == b.albums[j]);
        }
    }
    let tn = track_name(r);
    let t = TrackModel { band: b.name, name: tn, text: prepared(tn), path: r.path };
    let a2 = AlbumModel { name: a.name, text: a.text, tracks: a.tracks.push(t) };
    assert(album_normalised(a2)) by {
        assert forall|k: int| 0 <= k < a2.tracks.len() implies (#[trigger] a2.tracks[k]).text == prepared(
            a2.tracks[k].name,
        ) by {
            if k < a.tracks.len() {
                assert(a2.tracks[k] == a.tracks[k]);
            }
        }
    }
    let m = merge_one(bs, r);
    let als2 = als1.update(ai, a2);
    assert(m[bi].albums == als2);
    assert forall|i: int, j: int| 0 <= i < j < als2.len() implies (#[trigger] als2[i]).text != (
    #[trigger] als2[j]).text by {
        assert(als1[i].text == als2[i].text);
        assert(als1[j].text == als2[j].text);
    }
    assert forall|j: int| 0 <= j < als2.len() implies album_normalised(#[trigger] als2[j]) by {
        if j != ai {
            assert(als2[j] == als1[j]);
        }
    }
    assert forall|i: int, j: int| 0 <= i < j < m.len() implies (#[trigger] m[i]).text != (
    #[trigger] m[j]).text by {
        assert(m[i].text == bs1[i].text);
        assert(m[j].text == bs1[j].text);
    }
    assert forall|i: int| 0 <= i < m.len() implies distinct_album_texts(#[trigger] m[i]) by {
        if i != bi {
            assert(m[i] == bs1[i]);
        }
    }
    assert forall|i: int| 0 <= i < m.len() implies band_normalised(#[trigger] m[i]) by {
        if i != bi {
            assert(m[i] == bs1[i]);
        }
    }
}

/// Filing any number of tracks keeps band and album search texts distinct
/// and keeps every search text the normalised name.
pub proof fn lemma_merge_all_keeps_keys(bs: Seq<BandModel>, raws: Seq<RawModel>)
    requires
        well_keyed(bs),
        normalised_names(bs),
    ensures
        well_keyed(merge_all(bs, raws)),
        normalised_names(merge_all(bs, raws)),
    decreases raws.len(),
{
    if raws.len() > 0 {
        lemma_merge_all_keeps_keys(bs, raws.drop_last());
        lemma_merge_one_keeps_keys(merge_all(bs, raws.drop_last()), raws.last());
    }
}

/// Genres without repeats and without empty names, each the trimmed,
/// lower-cased form of a piece of a genre tag, or "unknown".
pub open spec fn genres_clean(g: Seq<Seq<char>>) -> bool {
    &&& forall|i: int, j: int| 0 <= i < j < g.len() ==> #[trigger] g[i] != #[trigger] g[j]
    &&& forall|i: int| 0 <= i < g.len() ==> (#[trigger] g[i]).len() > 0 && genre_cleaned(g[i])
}

/// A genre as the scan stores it: the trimmed, lower-cased form of a piece
/// of a genre tag, or "unknown".
pub open spec fn genre_cleaned(g: Seq<char>) -> bool {
    g == "unknown"@ || exists|t: Seq<char>| g == #[trigger] clean_genre(t)
}

/// Every band has an album and every album a track.
pub open spec fn filled(bs: Seq<BandModel>) -> bool {
    forall|i: int| 0 <= i < bs.len() ==> band_filled(#[trigger] bs[i])
}

/// The band has an album and each of its albums a track.
pub open spec fn band_filled(b: BandModel) -> bool {
    &&& b.albums.len() > 0
    &&& forall|j: int| 0 <= j < b.albums.len() ==> (#[trigger] b.albums[j]).tracks.len() > 0
}

/// A well-formed library: distinct band texts and, per band, distinct album
/// texts; every search text the normalised name; no empty band or album;
/// each band's genres without repeats or empty names.
pub open spec fn library_wf(bs: Seq<BandModel>) -> bool {
    &&& well_keyed(bs)
    &&& normalised_names(bs)
    &&& filled(bs)
    &&& forall|i: int| 0 <= i < bs.len() ==> genres_clean((#[trigger] bs[i]).genres)
}

/// An empty library, that of a new cache, is well-formed; scans and
/// evictions keep a library well-formed (see `begin_scan`,
/// `evict_obsolete_data` and `finish_scan`).
pub proof fn lemma_empty_library_wf()
    ensures
        library_wf(Seq::<BandModel>::empty()),
{
}

/// Adding the pieces of a genre tag keeps the genres without repeats or
/// empty names.
pub proof fn lemma_add_genres_clean(g: Seq<Seq<char>>, parts: Seq<Seq<char>>)
    requires
        genres_clean(g),
    ensures
        genres_clean(add_genres(g, parts)),
    decreases parts.len(),
{
    if parts.len() > 0 {
        lemma_add_genres_clean(g, parts.drop_last());
        let prev = add_genres(g, parts.drop_last());
        let c = clean_genre(parts.last());
        if c.len() > 0 && c != "unknown"@ && !prev.contains(c) {
            let n = prev.push(c);
            assert(genre_cleaned(c));
            assert forall|i: int, j: int| 0 <= i < j < n.len() implies #[trigger] n[i] != #[trigger] n[j] by {
                if j == prev.len() {
                    assert(n[i] == prev[i]);
                    assert(prev.contains(prev[i]));
                }
            }
        }
    }
}

/// Filing a track keeps a library well-formed.
pub proof fn lemma_merge_one_keeps_wf(bs: Seq<BandModel>, r: RawModel)
    requires
        library_wf(bs),
    ensures
        library_wf(merge_one(bs, r)),
{
    lemma_merge_one_keeps_keys(bs, r);
    let an = artist_name(r);
    let ak = prepared(an);
    let found = band_model_lookup(bs, ak);
    let bs1 = match found {
        Some(_) => bs,
        None => bs.push(
            BandModel { dir: r.band_dir, name: an, text: ak, genres: Seq::empty(), albums: Seq::empty() },
        ),
    };
    let bi = match found {
        Some(i) => i,
        None => bs.len() as int,
    };
    lemma_first_from(bs, |b: BandModel| b.text, ak, 0);
    let b = bs1[bi];
    assert(genres_clean(b.genres)) by {
        if found is Some {
            assert(b == bs[bi]);
        }
    }
    match r.meta_genre {
        Some(g) => lemma_add_genres_clean(b.genres, split_on(g, ',')),
        None => {},
    }
    let aln = album_name(r);
    let alk = prepared(aln);
    let afound = album_model_lookup(b.albums, alk);
    lemma_first_from(b.albums, |a: AlbumModel| a.text, alk, 0);
    let als1 = match afound {
        Some(_) => b.albums,
        None => b.albums.push(AlbumModel { name: aln, text: alk, tracks: Seq::empty() }),
    };
    let ai = match afound {
        Some(j) => j,
        None => b.albums.len() as int,
    };
    let m = merge_one(bs, r);
    assert(m == bs1.update(bi, m[bi]));
    assert forall|i: int| 0 <= i < m.len() implies band_filled(#[trigger] m[i]) by {
        if i != bi {
            assert(m[i] == bs[i]);
        } else {
            assert(m[i].albums == als1.update(ai, m[i].albums[ai]));
            assert forall|j: int| 0 <= j < m[i].albums.len() implies (#[trigger] m[i].albums[j]).tracks.len() > 0 by {
                if j != ai {
                    assert(m[i].albums[j] == b.albums[j]);
                    assert(b == bs[bi]);
                }
            }
        }
    }
    assert forall|i: int| 0 <= i < m.len() implies genres_clean((#[trigger] m[i]).genres) by {
        if i != bi {
            assert(m[i] == bs[i]);
        }
    }
}

/// Filing any number of tracks keeps a library well-formed.
pub proof fn lemma_merge_all_keeps_wf(bs: Seq<BandModel>, raws: Seq<RawModel>)
    requires
        library_wf(bs),
    ensures
        library_wf(merge_all(bs, raws)),
    decreases raws.len(),
{
    if raws.len() > 0 {
        lemma_merge_all_keeps_wf(bs, raws.drop_last());
        lemma_merge_one_keeps_wf(merge_all(bs, raws.drop_last()), raws.last());
    }
}

/// An item of a reordering of a sequence is an item of that sequence.
pub proof fn lemma_perm_contains<X>(s1: Seq<X>, s2: Seq<X>, x: X)
    requires
        s1.to_multiset() == s2.to_multiset(),
        s2.contains(x),
    ensures
        s1.contains(x),
{
    vstd::seq_lib::to_multiset_contains(s2, x);
    vstd::seq_lib::to_multiset_contains(s1, x);
}

/// Reordering keeps keys distinct.
pub proof fn lemma_perm_distinct_keys<X>(s1: Seq<X>, s2: Seq<X>, key: spec_fn(X) -> Seq<char>)
    requires
        s1.to_multiset() == s2.to_multiset(),
        forall|i: int, j: int| 0 <= i < j < s1.len() ==> key(#[trigger] s1[i]) != key(#[trigger] s1[j]),
    ensures
        forall|i: int, j: int| 0 <= i < j < s2.len() ==> key(#[trigger] s2[i]) != key(#[trigger] s2[j]),
{
    assert forall|i: int, j: int| 0 <= i < s1.len() && 0 <= j < s1.len() && i != j implies s1[i] != s1[j] by {
        if i < j {
            assert(key(s1[i]) != key(s1[j]));
        } else {
            assert(key(s1[j]) != key(s1[i]));
        }
    }
    s1.lemma_multiset_has_no_duplicates();
    s2.lemma_multiset_has_no_duplicates_conv();
    assert forall|i: int, j: int| 0 <= i < j < s2.len() implies key(#[trigger] s2[i]) != key(#[trigger] s2[j]) by {
        assert(s2.contains(s2[i]));
        assert(s2.contains(s2[j]));
        lemma_perm_contains(s1, s2, s2[i]);
        lemma_perm_contains(s1, s2, s2[j]);
        let a = choose|a: int| 0 <= a < s1.len() && s1[a] == s2[i];
        let b = choose|b: int| 0 <= b < s1.len() && s1[b] == s2[j];
        assert(a != b);
        if a < b {
            assert(key(s1[a]) != key(s1[b]));
        } else {
            assert(key(s1[b]) != key(s1[a]));
        }
    }
}

/// A band put in order keeps its texts, names, album texts and tracks, so
/// it stays well-formed; it gains a genre when it had none, and its albums
/// and their tracks are sorted.
pub proof fn lemma_band_polished_wf(b: Band, nb: Band)
    requires
        band_polished(b, nb),
        band_normalised(b@),
        distinct_album_texts(b@),
        band_filled(b@),
        genres_clean(b@.genres),
    ensures
        nb.text == b.text,
        band_normalised(nb@),
        distinct_album_texts(nb@),
        band_filled(nb@),
        genres_clean(nb@.genres),
        nb@.genres.len() >= 1,
        sorted(nb.albums@),
        forall|j: int| 0 <= j < nb.albums@.len() ==> sorted(#[trigger] nb.albums@[j].tracks@),
{
    broadcast use vstd::seq_lib::to_multiset_len;

    lemma_band_polished_ordered(b, nb);
    let mid = choose|mid: Seq<Album>|
        {
            &&& mid.to_multiset() == b.albums@.to_multiset()
            &&& stably_sorted(b.albums@, mid)
            &&& sorted(mid)
            &&& nb.albums@.len() == mid.len()
            &&& forall|i: int| 0 <= i < mid.len() ==> album_polished(#[trigger] mid[i], nb.albums@[i])
        };
    let key = |a: Album| a.text@;
    assert forall|i: int, j: int| 0 <= i < j < b.albums@.len() implies key(#[trigger] b.albums@[i]) != key(
        #[trigger] b.albums@[j],
    ) by {
        assert(b@.albums[i] == b.albums@[i]@);
        assert(b@.albums[j] == b.albums@[j]@);
    }
    lemma_perm_distinct_keys(b.albums@, mid, key);
    vstd::seq_lib::to_multiset_len(mid);
    vstd::seq_lib::to_multiset_len(b.albums@);
    assert(mid.len() == b.albums@.len());
    assert forall|j: int| 0 <= j < nb.albums@.len() implies sorted(#[trigger] nb.albums@[j].tracks@) by {
        assert(album_polished(mid[j], nb.albums@[j]));
    }
    assert forall|i: int, j: int| 0 <= i < j < nb@.albums.len() implies (#[trigger] nb@.albums[i]).text != (
    #[trigger] nb@.albums[j]).text by {
        assert(album_polished(mid[i], nb.albums@[i]));
        assert(album_polished(mid[j], nb.albums@[j]));
        assert(key(mid[i]) != key(mid[j]));
    }
    assert forall|j: int| 0 <= j < nb@.albums.len() implies album_normalised(#[trigger] nb@.albums[j])
        && nb@.albums[j].tracks.len() > 0 by {
        let na = nb.albums@[j];
        let a = mid[j];
        assert(album_polished(a, na));
        assert(mid.contains(a));
        lemma_perm_contains(b.albums@, mid, a);
        let k0 = choose|k0: int| 0 <= k0 < b.albums@.len() && b.albums@[k0] == a;
        assert(b@.albums[k0] == a@);
        assert(album_normalised(a@));
        assert(a@.tracks.len() > 0);
        vstd::seq_lib::to_multiset_len(na.tracks@);
        vstd::seq_lib::to_multiset_len(a.tracks@);
        assert(na.tracks@.len() == a.tracks@.len());
        assert forall|k: int| 0 <= k < na@.tracks.len() implies (#[trigger] na@.tracks[k]).text == prepared(
            na@.tracks[k].name,
        ) by {
            let t = na.tracks@[k];
            assert(na.tracks@.contains(t));
            lemma_perm_contains(a.tracks@, na.tracks@, t);
            let m = choose|m: int| 0 <= m < a.tracks@.len() && a.tracks@[m] == t;
            assert(a@.tracks[m] == t@);
        }
    }
    assert(nb@.genres =~= texts_view(nb.genres@));
    assert(b@.genres =~= texts_view(b.genres@));
    reveal_strlit("unknown");
    assert("unknown"@.len() > 0);
}

/// The bands sorted by search text, each with a genre, its albums sorted by
/// search text and their tracks by path.
pub open spec fn library_ordered(nbs: Seq<Band>) -> bool {
    &&& sorted(nbs)
    &&& forall|k: int| 0 <= k < nbs.len() ==> {
        &&& (#[trigger] nbs[k]).genres@.len() >= 1
        &&& sorted(nbs[k].albums@)
        &&& forall|j: int| 0 <= j < nbs[k].albums@.len() ==> sorted(#[trigger] nbs[k].albums@[j].tracks@)
    }
}

/// A library put in order, from a well-formed one, is well-formed, its
/// bands sorted by search text, each with a genre, its albums sorted by
/// search text and their tracks by path.
pub proof fn lemma_library_polished_wf(bs: Seq<Band>, nbs: Seq<Band>)
    requires
        library_polished(bs, nbs),
        library_wf(bands_view(bs)),
    ensures
        library_wf(bands_view(nbs)),
        library_ordered(nbs),
{
    let mid = choose|mid: Seq<Band>|
        {
            &&& mid.len() == bs.len()
            &&& forall|i: int| 0 <= i < bs.len() ==> band_polished(#[trigger] bs[i], mid[i])
            &&& nbs.to_multiset() == mid.to_multiset()
            &&& stably_sorted(mid, nbs)
            &&& sorted(nbs)
        };
    let bv = bands_view(bs);
    assert forall|i: int| 0 <= i < mid.len() implies {
        &&& (#[trigger] mid[i]).text == bs[i].text
        &&& band_normalised(mid[i]@)
        &&& distinct_album_texts(mid[i]@)
        &&& band_filled(mid[i]@)
        &&& genres_clean(mid[i]@.genres)
        &&& mid[i]@.genres.len() >= 1
        &&& sorted(mid[i].albums@)
        &&& forall|j: int| 0 <= j < mid[i].albums@.len() ==> sorted(#[trigger] mid[i].albums@[j].tracks@)
    } by {
        assert(bv[i] == bs[i]@);
        assert(band_polished(bs[i], mid[i]));
        lemma_band_polished_wf(bs[i], mid[i]);
    }
    let key = |b: Band| b.text@;
    assert forall|i: int, j: int| 0 <= i < j < mid.len() implies key(#[trigger] mid[i]) != key(#[trigger] mid[j]) by {
        assert(mid[i].text == bs[i].text);
        assert(mid[j].text == bs[j].text);
        assert(bv[i] == bs[i]@);
        assert(bv[j] == bs[j]@);
    }
    lemma_perm_distinct_keys(mid, nbs, key);
    let nv = bands_view(nbs);
    assert forall|k: int| 0 <= k < nbs.len() implies {
        &&& band_normalised(#[trigger] nbs[k]@)
        &&& distinct_album_texts(nbs[k]@)
        &&& band_filled(nbs[k]@)
        &&& genres_clean(nbs[k]@.genres)
        &&& nbs[k].genres@.len() >= 1
        &&& sorted(nbs[k].albums@)
        &&& forall|j: int| 0 <= j < nbs[k].albums@.len() ==> sorted(#[trigger] nbs[k].albums@[j].tracks@)
    } by {
        assert(nbs.contains(nbs[k]));
        lemma_perm_contains(mid, nbs, nbs[k]);
        let i = choose|i: int| 0 <= i < mid.len() && mid[i] == nbs[k];
        assert(mid[i].text == bs[i].text);
        assert(nbs[k]@.genres.len() == nbs[k].genres@.len());
    }
    assert forall|k: int| 0 <= k < nbs.len() implies {
        &&& (#[trigger] nbs[k]).genres@.len() >= 1
        &&& sorted(nbs[k].albums@)
        &&& forall|j: int| 0 <= j < nbs[k].albums@.len() ==> sorted(#[trigger] nbs[k].albums@[j].tracks@)
    } by {
        assert(band_normalised(nbs[k]@));
    }
    assert forall|i: int, j: int| 0 <= i < j < nv.len() implies (#[trigger] nv[i]).text != (#[trigger] nv[j]).text by {
        assert(key(nbs[i]) != key(nbs[j]));
    }
    assert forall|i: int| 0 <= i < nv.len() implies distinct_album_texts(#[trigger] nv[i]) && band_normalised(nv[i])
        && band_filled(nv[i]) && genres_clean(nv[i].genres) by {
        assert(nv[i] == nbs[i]@);
    }
}

/// After eviction every band has an album, every album a track, and no
/// track is obsolete.
pub open spec fn evicted_clean(bs: Seq<BandModel>, deleted: Seq<Seq<char>>, updated: Seq<Seq<char>>) -> bool {
    forall|i: int|
        0 <= i < bs.len() ==> {
            &&& (#[trigger] bs[i]).albums.len() > 0
            &&& forall|j: int|
                0 <= j < bs[i].albums.len() ==> {
                    &&& (#[trigger] bs[i].albums[j]).tracks.len() > 0
                    &&& forall|k: int|
                        0 <= k < bs[i].albums[j].tracks.len() ==> !obsolete(
                            #[trigger] bs[i].albums[j].tracks[k],
                            deleted,
                            updated,
                        )
                }
        }
}

/// Eviction leaves no obsolete track and no empty album or band.
pub proof fn lemma_evict_clean(bs: Seq<BandModel>, deleted: Seq<Seq<char>>, updated: Seq<Seq<char>>)
    ensures
        evicted_clean(evict_bands(bs, deleted, updated), deleted, updated),
{
    broadcast use vstd::seq_lib::group_filter_ensures;

    let fb = |b: BandModel| evict_band(b, deleted, updated);
    let pb = |b: BandModel| b.albums.len() > 0;
    let out = evict_bands(bs, deleted, updated);
    assert forall|i: int| 0 <= i < out.len() implies {
        &&& (#[trigger] out[i]).albums.len() > 0
        &&& forall|j: int|
            0 <= j < out[i].albums.len() ==> {
                &&& (#[trigger] out[i].albums[j]).tracks.len() > 0
                &&& forall|k: int|
                    0 <= k < out[i].albums[j].tracks.len() ==> !obsolete(
                        #[trigger] out[i].albums[j].tracks[k],
                        deleted,
                        updated,
                    )
            }
    } by {
        bs.map_values(fb).lemma_filter_pred(pb, i);
        assert(bs.map_values(fb).filter(pb).contains(out[i]));
        bs.map_values(fb).lemma_filter_contains_rev(pb, out[i]);
        let m = choose|m: int| 0 <= m < bs.len() && bs.map_values(fb)[m] == out[i];
        let b0 = bs[m];
        assert(out[i] == evict_band(b0, deleted, updated));
        let fa = |a: AlbumModel| evict_album(a, deleted, updated);
        let pa = |a: AlbumModel| a.tracks.len() > 0;
        let als = out[i].albums;
        assert(als == b0.albums.map_values(fa).filter(pa));
        assert forall|j: int| 0 <= j < als.len() implies {
            &&& (#[trigger] als[j]).tracks.len() > 0
            &&& forall|k: int|
                0 <= k < als[j].tracks.len() ==> !obsolete(#[trigger] als[j].tracks[k], deleted, updated)
        } by {
            b0.albums.map_values(fa).lemma_filter_pred(pa, j);
            assert(b0.albums.map_values(fa).filter(pa).contains(als[j]));
            b0.albums.map_values(fa).lemma_filter_contains_rev(pa, als[j]);
            let n = choose|n: int| 0 <= n < b0.albums.len() && b0.albums.map_values(fa)[n] == als[j];
            let a0 = b0.albums[n];
            let pt = |t: TrackModel| !obsolete(t, deleted, updated);
            assert(als[j].tracks == a0.tracks.filter(pt));
            assert forall|k: int| 0 <= k < als[j].tracks.len() implies !obsolete(
                #[trigger] als[j].tracks[k],
                deleted,
                updated,
            ) by {
                a0.tracks.lemma_filter_pred(pt, k);
            }
        }
    }
}

/// Filtering with a predicate that holds everywhere keeps everything.
pub proof fn lemma_filter_all<X>(s: Seq<X>, p: spec_fn(X) -> bool)
    requires
        forall|i: int| 0 <= i < s.len() ==> p(#[trigger] s[i]),
    ensures
        s.filter(p) == s,
    decreases s.len(),
{
    reveal_with_fuel(Seq::filter, 1);
    if s.len() > 0 {
        assert forall|i: int| 0 <= i < s.drop_last().len() implies p(#[trigger] s.drop_last()[i]) by {
            assert(s.drop_last()[i] == s[i]);
        }
        lemma_filter_all(s.drop_last(), p);
        assert(s.drop_last().push(s.last()) =~= s);
    }
}

/// Eviction leaves a library with no obsolete track and no empty album or
/// band as it is.
pub proof fn lemma_evict_clean_unchanged(bs: Seq<BandModel>, deleted: Seq<Seq<char>>, updated: Seq<Seq<char>>)
    requires
        evicted_clean(bs, deleted, updated),
    ensures
        evict_bands(bs, deleted, updated) == bs,
{
    let fb = |b: BandModel| evict_band(b, deleted, updated);
    let pb = |b: BandModel| b.albums.len() > 0;
    let fa = |a: AlbumModel| evict_album(a, deleted, updated);
    let pa = |a: AlbumModel| a.tracks.len() > 0;
    let pt = |t: TrackModel| !obsolete(t, deleted, updated);
    assert forall|i: int| 0 <= i < bs.len() implies fb(#[trigger] bs[i]) == bs[i] by {
        let b = bs[i];
        assert forall|j: int| 0 <= j < b.albums.len() implies fa(#[trigger] b.albums[j]) == b.albums[j] by {
            let a = b.albums[j];
            assert forall|k: int| 0 <= k < a.tracks.len() implies pt(#[trigger] a.tracks[k]) by {
                assert(bs[i].albums[j].tracks[k] == a.tracks[k]);
            }
            lemma_filter_all(a.tracks, pt);
        }
        assert(b.albums.map_values(fa) =~= b.albums);
        assert forall|j: int| 0 <= j < b.albums.len() implies pa(#[trigger] b.albums[j]) by {
            assert(bs[i].albums[j] == b.albums[j]);
        }
        lemma_filter_all(b.albums, pa);
    }
    assert(bs.map_values(fb) =~= bs);
    assert forall|i: int| 0 <= i < bs.len() implies pb(#[trigger] bs[i]) by {}
    lemma_filter_all(bs, pb);
}

/// Evicting twice with the same directories is evicting once.
pub proof fn lemma_evict_idempotent(bs: Seq<BandModel>, deleted: Seq<Seq<char>>, updated: Seq<Seq<char>>)
    ensures
        evict_bands(evict_bands(bs, deleted, updated), deleted, updated) == evict_bands(bs, deleted, updated),
{
    lemma_evict_clean(bs, deleted, updated);
    lemma_evict_clean_unchanged(evict_bands(bs, deleted, updated), deleted, updated);
}

/// Filtering keeps keys distinct.
pub proof fn lemma_filter_distinct_keys<X>(s: Seq<X>, p: spec_fn(X) -> bool, key: spec_fn(X) -> Seq<char>)
    requires
        forall|i: int, j: int| 0 <= i < j < s.len() ==> key(#[trigger] s[i]) != key(#[trigger] s[j]),
    ensures
        forall|i: int, j: int| 0 <= i < j < s.filter(p).len() ==> key(#[trigger] s.filter(p)[i]) != key(
            #[trigger] s.filter(p)[j],
        ),
    decreases s.len(),
{
    reveal_with_fuel(Seq::filter, 1);
    if s.len() > 0 {
        let t = s.drop_last();
        assert forall|i: int, j: int| 0 <= i < j < t.len() implies key(#[trigger] t[i]) != key(#[trigger] t[j]) by {
            assert(t[i] == s[i] && t[j] == s[j]);
        }
        lemma_filter_distinct_keys(t, p, key);
        if p(s.last()) {
            let f = t.filter(p);
            let g = f.push(s.last());
            assert(s.filter(p) == g);
            assert forall|i: int, j: int| 0 <= i < j < g.len() implies key(#[trigger] g[i]) != key(#[trigger] g[j]) by {
                if j == f.len() {
                    assert(g[i] == f[i]);
                    assert(f.contains(f[i]));
                    t.lemma_filter_contains_rev(p, f[i]);
                    let m = choose|m: int| 0 <= m < t.len() && t[m] == f[i];
                    assert(s[m] == t[m]);
                    assert(s[s.len() - 1] == s.last());
                } else {
                    assert(g[i] == f[i] && g[j] == f[j]);
                }
            }
        }
    }
}

/// Eviction keeps a library well-formed.
pub proof fn lemma_evict_keeps_wf(bs: Seq<BandModel>, deleted: Seq<Seq<char>>, updated: Seq<Seq<char>>)
    requires
        library_wf(bs),
    ensures
        library_wf(evict_bands(bs, deleted, updated)),
{
    broadcast use vstd::seq_lib::group_filter_ensures;

    let fb = |b: BandModel| evict_band(b, deleted, updated);
    let pb = |b: BandModel| b.albums.len() > 0;
    let fa = |a: AlbumModel| evict_album(a, deleted, updated);
    let pa = |a: AlbumModel| a.tracks.len() > 0;
    let pt = |t: TrackModel| !obsolete(t, deleted, updated);
    let mb = bs.map_values(fb);
    let out = evict_bands(bs, deleted, updated);
    lemma_evict_clean(bs, deleted, updated);
    let bkey = |b: BandModel| b.text;
    assert forall|i: int, j: int| 0 <= i < j < mb.len() implies bkey(#[trigger] mb[i]) != bkey(#[trigger] mb[j]) by {
        assert(mb[i].text == bs[i].text && mb[j].text == bs[j].text);
    }
    lemma_filter_distinct_keys(mb, pb, bkey);
    assert forall|i: int| 0 <= i < out.len() implies {
        &&& distinct_album_texts(#[trigger] out[i])
        &&& band_normalised(out[i])
        &&& band_filled(out[i])
        &&& genres_clean(out[i].genres)
    } by {
        assert(out.contains(out[i]));
        mb.lemma_filter_contains_rev(pb, out[i]);
        let m = choose|m: int| 0 <= m < mb.len() && mb[m] == out[i];
        let b0 = bs[m];
        assert(out[i] == evict_band(b0, deleted, updated));
        let ma = b0.albums.map_values(fa);
        let akey = |a: AlbumModel| a.text;
        assert forall|x: int, y: int| 0 <= x < y < ma.len() implies akey(#[trigger] ma[x]) != akey(#[trigger] ma[y]) by {
            assert(ma[x].text == b0.albums[x].text && ma[y].text == b0.albums[y].text);
        }
        lemma_filter_distinct_keys(ma, pa, akey);
        let als = out[i].albums;
        assert(als == ma.filter(pa));
        assert forall|j: int| 0 <= j < als.len() implies album_normalised(#[trigger] als[j]) by {
            assert(als.contains(als[j]));
            ma.lemma_filter_contains_rev(pa, als[j]);
            let n = choose|n: int| 0 <= n < ma.len() && ma[n] == als[j];
            let a0 = b0.albums[n];
            assert(album_normalised(a0));
            assert(als[j].tracks == a0.tracks.filter(pt));
            assert forall|k: int| 0 <= k < als[j].tracks.len() implies (#[trigger] als[j].tracks[k]).text == prepared(
                als[j].tracks[k].name,
            ) by {
                let t = als[j].tracks[k];
                assert(als[j].tracks.contains(t));
                a0.tracks.lemma_filter_contains_rev(pt, t);
            }
        }
        assert forall|x: int, y: int| 0 <= x < y < als.len() implies (#[trigger] als[x]).text != (#[trigger] als[y]).text by {
            assert(akey(als[x]) != akey(als[y]));
        }
    }
    assert forall|i: int, j: int| 0 <= i < j < out.len() implies (#[trigger] out[i]).text != (#[trigger] out[j]).text by {
        assert(bkey(out[i]) != bkey(out[j]));
    }
}

/// Filtering with a predicate that holds nowhere keeps nothing.
pub proof fn lemma_filter_none<X>(s: Seq<X>, p: spec_fn(X) -> bool)
    requires
        forall|i: int| 0 <= i < s.len() ==> !p(#[trigger] s[i]),
    ensures
        s.filter(p).len() == 0,
    decreases s.len(),
{
    reveal_with_fuel(Seq::filter, 1);
    if s.len() > 0 {
        assert forall|i: int| 0 <= i < s.drop_last().len() implies !p(#[trigger] s.drop_last()[i]) by {
            assert(s.drop_last()[i] == s[i]);
        }
        lemma_filter_none(s.drop_last(), p);
    }
}

/// A rescan of the same root that finds the same directories with the same
/// times, in whatever order, has nothing to forget and nothing to read.
pub proof fn lemma_unchanged_rescan(c: CacheModel, root: Seq<char>, cur: Seq<DirStamp>)
    requires
        c.root_path == Some(root),
        forall|e: DirStamp| cur.contains(e) <==> c.dirs.contains(e),
    ensures
        !root_changed(c.root_path, root),
        scan_deleted(c, root, cur).len() == 0,
        scan_updated(c, root, cur).len() == 0,
{
    let dirs = c.dirs;
    let pd = |e: DirStamp| !has_dir(cur, e.0);
    assert forall|i: int| 0 <= i < dirs.len() implies !pd(#[trigger] dirs[i]) by {
        assert(dirs.contains(dirs[i]));
        assert(cur.contains(dirs[i]));
        let j = choose|j: int| 0 <= j < cur.len() && cur[j] == dirs[i];
        assert(cur[j].0 == dirs[i].0);
        assert(has_dir(cur, dirs[i].0));
    }
    lemma_filter_none(dirs, pd);
    let pc = |e: DirStamp| !dirs.contains(e);
    assert forall|i: int| 0 <= i < cur.len() implies !pc(#[trigger] cur[i]) by {
        assert(cur.contains(cur[i]));
    }
    lemma_filter_none(cur, pc);
    assert(deleted_dirs(dirs, cur).len() == 0);
    assert(changed_dirs(dirs, cur).len() == 0);
}


/// The sum of `f` over a sequence.
pub open spec fn sum_of<X>(s: Seq<X>, f: spec_fn(X) -> int) -> int
    decreases s.len(),
{
    if s.len() == 0 {
        0
    } else {
        sum_of(s.drop_last(), f) + f(s.last())
    }
}

/// Replacing one element changes the sum by the difference.
pub proof fn lemma_sum_update<X>(s: Seq<X>, f: spec_fn(X) -> int, i: int, x: X)
    requires
        0 <= i < s.len(),
    ensures
        sum_of(s.update(i, x), f) == sum_of(s, f) - f(s[i]) + f(x),
    decreases s.len(),
{
    let u = s.update(i, x);
    if i == s.len() - 1 {
        assert(u.drop_last() =~= s.drop_last());
    } else {
        assert(u.drop_last() =~= s.drop_last().update(i, x));
        lemma_sum_update(s.drop_last(), f, i, x);
    }
}

/// Adding an element adds it to the sum.
pub proof fn lemma_sum_push<X>(s: Seq<X>, f: spec_fn(X) -> int, x: X)
    ensures
        sum_of(s.push(x), f) == sum_of(s, f) + f(x),
{
    assert(s.push(x).drop_last() =~= s);
}

/// The number of tracks of an album.
pub open spec fn album_size(a: AlbumModel) -> int {
    a.tracks.len() as int
}

/// The number of tracks of a band.
pub open spec fn band_size(b: BandModel) -> int {
    sum_of(b.albums, |a: AlbumModel| album_size(a))
}

/// The number of tracks of a library.
pub open spec fn library_size(bs: Seq<BandModel>) -> int {
    sum_of(bs, |b: BandModel| band_size(b))
}

/// Filing a track adds exactly one track to the library.
pub proof fn lemma_merge_one_adds_one(bs: Seq<BandModel>, r: RawModel)
    ensures
        library_size(merge_one(bs, r)) == library_size(bs) + 1,
{
    let fb = |b: BandModel| band_size(b);
    let fa = |a: AlbumModel| album_size(a);
    let an = artist_name(r);
    let ak = prepared(an);
    let found = band_model_lookup(bs, ak);
    lemma_first_from(bs, |b: BandModel| b.text, ak, 0);
    let nb = BandModel { dir: r.band_dir, name: an, text: ak, genres: Seq::empty(), albums: Seq::empty() };
    let bs1 = match found {
        Some(_) => bs,
        None => bs.push(nb),
    };
    let bi = match found {
        Some(i) => i,
        None => bs.len() as int,
    };
    if found is None {
        lemma_sum_push(bs, fb, nb);
        assert(band_size(nb) == 0);
    }
    assert(sum_of(bs1, fb) == sum_of(bs, fb));
    let b = bs1[bi];
    let aln = album_name(r);
    let alk = prepared(aln);
    let afound = album_model_lookup(b.albums, alk);
    lemma_first_from(b.albums, |a: AlbumModel| a.text, alk, 0);
    let na = AlbumModel { name: aln, text: alk, tracks: Seq::empty() };
    let als1 = match afound {
        Some(_) => b.albums,
        None => b.albums.push(na),
    };
    let ai = match afound {
        Some(j) => j,
        None => b.albums.len() as int,
    };
    if afound is None {
        lemma_sum_push(b.albums, fa, na);
    }
    assert(sum_of(als1, fa) == sum_of(b.albums, fa));
    let a = als1[ai];
    let tn = track_name(r);
    let t = TrackModel { band: b.name, name: tn, text: prepared(tn), path: r.path };
    let a2 = AlbumModel { name: a.name, text: a.text, tracks: a.tracks.push(t) };
    lemma_sum_update(als1, fa, ai, a2);
    let m = merge_one(bs, r);
    let b2 = m[bi];
    assert(band_size(b2) == band_size(b) + 1);
    assert(m == bs1.update(bi, b2));
    lemma_sum_update(bs1, fb, bi, b2);
}

/// Filing tracks adds exactly one track per file.
pub proof fn lemma_merge_all_adds(bs: Seq<BandModel>, raws: Seq<RawModel>)
    ensures
        library_size(merge_all(bs, raws)) == library_size(bs) + raws.len(),
    decreases raws.len(),
{
    if raws.len() > 0 {
        lemma_merge_all_adds(bs, raws.drop_last());
        lemma_merge_one_adds_one(merge_all(bs, raws.drop_last()), raws.last());
    }
}


/// A band put in order has a genre and its albums sorted by search text.
pub proof fn lemma_band_polished_ordered(b: Band, nb: Band)
    requires
        band_polished(b, nb),
    ensures
        nb.genres@.len() >= 1,
        sorted(nb.albums@),
{
    assert(texts_view(nb.genres@).len() == nb.genres@.len());
    let mid = choose|mid: Seq<Album>|
        {
            &&& mid.to_multiset() == b.albums@.to_multiset()
            &&& stably_sorted(b.albums@, mid)
            &&& sorted(mid)
            &&& nb.albums@.len() == mid.len()
            &&& forall|i: int| 0 <= i < mid.len() ==> super::scan::album_polished(#[trigger] mid[i], nb.albums@[i])
        };
    assert forall|i: int| 0 < i < nb.albums@.len() implies !Album::before(
        #[trigger] nb.albums@[i],
        nb.albums@[i - 1],
    ) by {
        assert(super::scan::album_polished(mid[i], nb.albums@[i]));
        assert(super::scan::album_polished(mid[i - 1], nb.albums@[i - 1]));
    }
}

/// After a rescan puts the library in order, the bands are sorted by search
/// text, every band has a genre, and its albums are sorted by search text.
pub proof fn lemma_polished_library_ordered(bs: Seq<Band>, nbs: Seq<Band>)
    requires
        library_polished(bs, nbs),
    ensures
        sorted(nbs),
        forall|k: int| 0 <= k < nbs.len() ==> (#[trigger] nbs[k]).genres@.len() >= 1 && sorted(nbs[k].albums@),
{
    let mid = choose|mid: Seq<Band>|
        {
            &&& mid.len() == bs.len()
            &&& forall|i: int| 0 <= i < bs.len() ==> band_polished(#[trigger] bs[i], mid[i])
            &&& nbs.to_multiset() == mid.to_multiset()
            &&& stably_sorted(mid, nbs)
            &&& sorted(nbs)
        };
    assert forall|k: int| 0 <= k < nbs.len() implies (#[trigger] nbs[k]).genres@.len() >= 1 && sorted(
        nbs[k].albums@,
    ) by {
        assert(nbs.contains(nbs[k]));
        vstd::seq_lib::to_multiset_contains(nbs, nbs[k]);
        vstd::seq_lib::to_multiset_contains(mid, nbs[k]);
        let i = choose|i: int| 0 <= i < mid.len() && mid[i] == nbs[k];
        assert(band_polished(bs[i], mid[i]));
        lemma_band_polished_ordered(bs[i], mid[i]);
    }
}


/// A free-text search tries the bands, then the albums, then the tracks,
/// each compared with the normalised query.
pub proof fn lemma_global_cascade(bands: Seq<Band>, q: String, stages: Seq<super::search::Stage>)
    requires
        valid_plan(bands, SearchIntent::Global(q), stages),
    ensures
        stages.len() == 3,
        stages[0].tier == Tier::Bands,
        stages[1].tier == Tier::Albums,
        stages[2].tier == Tier::Tracks,
        ({
            let f: FiltersView = (Some(prepared(q@)), None, None, None, None);
            &&& stage_is(stages[0], bands, f, Tier::Bands)
            &&& stage_is(stages[1], bands, f, Tier::Albums)
            &&& stage_is(stages[2], bands, f, Tier::Tracks)
        }),
{
}

/// A filtered search looks at one tier: bands when only the band filter is
/// given, albums when the album filter is given without track and genre
/// filters, tracks otherwise.
pub proof fn lemma_targeted_tier(
    bands: Seq<Band>,
    band: Option<String>,
    album: Option<String>,
    track: Option<String>,
    genre: Option<String>,
    stages: Seq<super::search::Stage>,
)
    requires
        valid_plan(bands, SearchIntent::Targeted { band, album, track, genre }, stages),
    ensures
        stages.len() == 1,
        stages[0].tier == if band is Some && album is None && track is None && genre is None {
            Tier::Bands
        } else if album is Some && track is None && genre is None {
            Tier::Albums
        } else {
            Tier::Tracks
        },
{
}

/// `after` is `before` with every query text replaced by its normalised form.
pub open spec fn normalised_intent(before: SearchIntent, after: SearchIntent) -> bool {
    match (before, after) {
        (SearchIntent::Global(q), SearchIntent::Global(q2)) => q2@ == prepared(q@),
        (
            SearchIntent::Targeted { band, album, track, genre },
            SearchIntent::Targeted { band: band2, album: album2, track: track2, genre: genre2 },
        ) => {
            &&& opt_view(band2) == normalised(band)
            &&& opt_view(album2) == normalised(album)
            &&& opt_view(track2) == normalised(track)
            &&& opt_view(genre2) == normalised(genre)
        },
        _ => false,
    }
}

/// A filter that is already normalised is left as it is by normalising.
proof fn lemma_normalised_again(o: Option<String>, o2: Option<String>)
    requires
        opt_view(o2) == normalised(o),
    ensures
        normalised(o2) == normalised(o),
{
    if let Some(s) = o {
        lemma_prepared_idempotent(s@);
    }
}

/// Only the normalised query matters: a search and the same search with its
/// texts normalised beforehand have the same plan, and so, for the same
/// ranking, the same outcomes.
pub proof fn lemma_normalised_query_same_search<F: Fn(&Stage) -> Vec<usize>>(
    bands: Seq<Band>,
    before: SearchIntent,
    after: SearchIntent,
    rank: F,
    stages: Seq<Stage>,
    outs: Seq<Vec<usize>>,
    r: PlaybackTarget,
)
    requires
        normalised_intent(before, after),
    ensures
        valid_plan(bands, before, stages) <==> valid_plan(bands, after, stages),
        search_outcome(bands, before, rank, stages, outs, r) <==> search_outcome(bands, after, rank, stages, outs, r),
{
    match (before, after) {
        (SearchIntent::Global(q), SearchIntent::Global(q2)) => {
            lemma_prepared_idempotent(q@);
        },
        (
            SearchIntent::Targeted { band, album, track, genre },
            SearchIntent::Targeted { band: band2, album: album2, track: track2, genre: genre2 },
        ) => {
            lemma_normalised_again(band, band2);
            lemma_normalised_again(album, album2);
            lemma_normalised_again(track, track2);
            lemma_normalised_again(genre, genre2);
        },
        _ => {},
    }
}

/// The terms of two queries joined by a space are the terms of the first
/// followed by those of the second.
pub proof fn lemma_query_terms_concat(a: Seq<char>, b: Seq<char>)
    ensures
        query_terms(a + seq![' '] + b) == query_terms(a) + query_terms(b),
{
    lemma_words_concat(a, b);
    assert((words(a) + words(b)).map_values(|w: Seq<char>| lowercase(w)) =~= words(a).map_values(
        |w: Seq<char>| lowercase(w),
    ) + words(b).map_values(|w: Seq<char>| lowercase(w)));
}

/// Two lists holding the same terms match the same tracks.
pub proof fn lemma_same_terms_same_matches(t1: Seq<Seq<char>>, t2: Seq<Seq<char>>, bands: Seq<Band>)
    requires
        forall|x: Seq<char>| t1.contains(x) <==> t2.contains(x),
    ensures
        library_matches(t1, bands) == library_matches(t2, bands),
{
    assert forall|b: Band, a: Album, t: Track| matches_terms(t1, b, a, t) == matches_terms(t2, b, a, t) by {
        if matches_terms(t1, b, a, t) {
            assert forall|k: int| 0 <= k < t2.len() implies occurs_in(combined_text(b, a, t), #[trigger] t2[k]) by {
                assert(t2.contains(t2[k]));
                assert(t1.contains(t2[k]));
                let j = choose|j: int| 0 <= j < t1.len() && t1[j] == t2[k];
                assert(occurs_in(combined_text(b, a, t), t1[j]));
            }
        }
        if matches_terms(t2, b, a, t) {
            assert forall|k: int| 0 <= k < t1.len() implies occurs_in(combined_text(b, a, t), #[trigger] t1[k]) by {
                assert(t1.contains(t1[k]));
                assert(t2.contains(t1[k]));
                let j = choose|j: int| 0 <= j < t2.len() && t2[j] == t1[k];
                assert(occurs_in(combined_text(b, a, t), t2[j]));
            }
        }
    }
    assert forall|b: Band| band_matches(t1, b) == band_matches(t2, b) by {
        assert forall|a: Album| album_matches(t1, b, a) == album_matches(t2, b, a) by {
            assert((|t: Track| matches_terms(t1, b, a, t)) =~= (|t: Track| matches_terms(t2, b, a, t)));
        }
        assert(b.albums@.map_values(|a: Album| album_matches(t1, b, a)) =~= b.albums@.map_values(
            |a: Album| album_matches(t2, b, a),
        ));
    }
    assert(bands.map_values(|b: Band| band_matches(t1, b)) =~= bands.map_values(|b: Band| band_matches(t2, b)));
}

/// The order of the words of a free-text lookup does not matter.
pub proof fn lemma_find_word_order(bands: Seq<Band>, a: Seq<char>, b: Seq<char>)
    ensures
        find_result(bands, a + seq![' '] + b) == find_result(bands, b + seq![' '] + a),
{
    lemma_query_terms_concat(a, b);
    lemma_query_terms_concat(b, a);
    let t1 = query_terms(a) + query_terms(b);
    let t2 = query_terms(b) + query_terms(a);
    assert forall|x: Seq<char>| t1.contains(x) <==> t2.contains(x) by {
        if t1.contains(x) {
            let j = choose|j: int| 0 <= j < t1.len() && t1[j] == x;
            if j < query_terms(a).len() {
                assert(t2[query_terms(b).len() + j] == x);
            } else {
                assert(t2[j - query_terms(a).len()] == x);
            }
        }
        if t2.contains(x) {
            let j = choose|j: int| 0 <= j < t2.len() && t2[j] == x;
            if j < query_terms(b).len() {
                assert(t1[query_terms(a).len() + j] == x);
            } else {
                assert(t1[j - query_terms(b).len()] == x);
            }
        }
    }
    lemma_same_terms_same_matches(t1, t2, bands);
}

/// Adding a word to a free-text lookup that has words keeps, album by
/// album, exactly the tracks found before that also match the new word.
pub proof fn lemma_find_added_word(b: Band, a: Album, q: Seq<char>, w: Seq<char>)
    ensures
        album_matches(query_terms(q + seq![' '] + w), b, a) == album_matches(query_terms(q), b, a).filter(
            |t: Track| matches_terms(query_terms(w), b, a, t),
        ),
{
    lemma_query_terms_concat(q, w);
    let tq = query_terms(q);
    let tw = query_terms(w);
    let t = tq + tw;
    assert forall|x: Track| matches_terms(t, b, a, x) == (matches_terms(tq, b, a, x) && matches_terms(tw, b, a, x)) by {
        if matches_terms(t, b, a, x) {
            assert forall|k: int| 0 <= k < tq.len() implies occurs_in(combined_text(b, a, x), #[trigger] tq[k]) by {
                assert(t[k] == tq[k]);
            }
            assert forall|k: int| 0 <= k < tw.len() implies occurs_in(combined_text(b, a, x), #[trigger] tw[k]) by {
                assert(t[tq.len() + k] == tw[k]);
            }
        }
        if matches_terms(tq, b, a, x) && matches_terms(tw, b, a, x) {
            assert forall|k: int| 0 <= k < t.len() implies occurs_in(combined_text(b, a, x), #[trigger] t[k]) by {
                if k < tq.len() {
                    assert(t[k] == tq[k]);
                } else {
                    assert(t[k] == tw[k - tq.len()]);
                }
            }
        }
    }
    let p = |x: Track| matches_terms(tq, b, a, x);
    let pw = |x: Track| matches_terms(tw, b, a, x);
    let pt = |x: Track| matches_terms(t, b, a, x);
    lemma_filter_filter(a.tracks@, p, pw);
    assert(pt =~= (|x: Track| p(x) && pw(x)));
    assert(album_matches(tq, b, a) == a.tracks@.filter(p));
    assert(album_matches(t, b, a) == a.tracks@.filter(pt));
}

/// The tracks of an album matching the terms `tq` that also match `tw`.
pub open spec fn refined_album(b: Band, a: Album, tq: Seq<Seq<char>>, tw: Seq<Seq<char>>) -> Seq<Track> {
    album_matches(tq, b, a).filter(|t: Track| matches_terms(tw, b, a, t))
}

/// The tracks of the library matching `tq` that also match `tw`, album by
/// album: a subsequence of the tracks matching `tq`.
pub open spec fn refined_library(bands: Seq<Band>, tq: Seq<Seq<char>>, tw: Seq<Seq<char>>) -> Seq<Track> {
    bands.map_values(
        |b: Band| b.albums@.map_values(|a: Album| refined_album(b, a, tq, tw)).flatten(),
    ).flatten()
}

/// Adding a word to a free-text lookup keeps, album by album and in order,
/// exactly the tracks found before that also match the new word.
pub proof fn lemma_find_added_word_library(bands: Seq<Band>, q: Seq<char>, w: Seq<char>)
    ensures
        library_matches(query_terms(q + seq![' '] + w), bands) == refined_library(
            bands,
            query_terms(q),
            query_terms(w),
        ),
{
    let t = query_terms(q + seq![' '] + w);
    let tq = query_terms(q);
    let tw = query_terms(w);
    assert forall|b: Band| band_matches(t, b) == b.albums@.map_values(|a: Album| refined_album(b, a, tq, tw)).flatten() by {
        assert forall|a: Album| album_matches(t, b, a) == refined_album(b, a, tq, tw) by {
            lemma_find_added_word(b, a, q, w);
        }
        assert(b.albums@.map_values(|a: Album| album_matches(t, b, a)) =~= b.albums@.map_values(
            |a: Album| refined_album(b, a, tq, tw),
        ));
    }
    assert(bands.map_values(|b: Band| band_matches(t, b)) =~= bands.map_values(
        |b: Band| b.albums@.map_values(|a: Album| refined_album(b, a, tq, tw)).flatten(),
    ));
}

/// Filtering by one predicate and then another is filtering by both.
pub proof fn lemma_filter_filter<X>(s: Seq<X>, p: spec_fn(X) -> bool, q: spec_fn(X) -> bool)
    ensures
        s.filter(p).filter(q) == s.filter(|x: X| p(x) && q(x)),
    decreases s.len(),
{
    reveal_with_fuel(Seq::filter, 1);
    if s.len() > 0 {
        lemma_filter_filter(s.drop_last(), p, q);
        let pq = |x: X| p(x) && q(x);
        if p(s.last()) {
            assert(s.filter(p) == s.drop_last().filter(p).push(s.last()));
            assert(s.filter(p).drop_last() =~= s.drop_last().filter(p));
            assert(s.filter(p).last() == s.last());
        } else {
            assert(s.filter(p) == s.drop_last().filter(p));
        }
    }
}

/// The paths of the tracks of a library.
pub open spec fn track_paths(bs: Seq<BandModel>) -> Set<Seq<char>> {
    Set::new(
        |p: Seq<char>|
            exists|i: int, j: int, k: int|
                0 <= i < bs.len() && 0 <= j < bs[i].albums.len() && 0 <= k < bs[i].albums[j].tracks.len()
                    && (#[trigger] bs[i].albums[j].tracks[k]).path == p,
    )
}

/// The paths of the files read by a rescan.
pub open spec fn raw_paths(raws: Seq<RawModel>) -> Set<Seq<char>> {
    Set::new(|p: Seq<char>| exists|m: int| 0 <= m < raws.len() && (#[trigger] raws[m]).path == p)
}

/// Filing a track adds its path to the paths of the library.
pub proof fn lemma_merge_one_paths(bs: Seq<BandModel>, r: RawModel)
    ensures
        track_paths(merge_one(bs, r)) == track_paths(bs).insert(r.path),
{
    let an = artist_name(r);
    let ak = prepared(an);
    let found = band_model_lookup(bs, ak);
    lemma_first_from(bs, |b: BandModel| b.text, ak, 0);
    let bs1 = match found {
        Some(_) => bs,
        None => bs.push(
            BandModel { dir: r.band_dir, name: an, text: ak, genres: Seq::empty(), albums: Seq::empty() },
        ),
    };
    let bi = match found {
        Some(i) => i,
        None => bs.len() as int,
    };
    let b = bs1[bi];
    let aln = album_name(r);
    let alk = prepared(aln);
    let afound = album_model_lookup(b.albums, alk);
    lemma_first_from(b.albums, |a: AlbumModel| a.text, alk, 0);
    let als1 = match afound {
        Some(_) => b.albums,
        None => b.albums.push(AlbumModel { name: aln, text: alk, tracks: Seq::empty() }),
    };
    let ai = match afound {
        Some(j) => j,
        None => b.albums.len() as int,
    };
    let a = als1[ai];
    let m = merge_one(bs, r);
    let nt = a.tracks.len() as int;
    assert(m == bs1.update(bi, m[bi]));
    assert(m[bi].albums == als1.update(ai, m[bi].albums[ai]));
    assert(m[bi].albums[ai].tracks == a.tracks.push(m[bi].albums[ai].tracks[nt]));
    assert(m[bi].albums[ai].tracks[nt].path == r.path);
    assert forall|p: Seq<char>| track_paths(m).contains(p) <==> track_paths(bs).insert(r.path).contains(p) by {
        if track_paths(m).contains(p) {
            let (i, j, k) = choose|i: int, j: int, k: int|
                0 <= i < m.len() && 0 <= j < m[i].albums.len() && 0 <= k < m[i].albums[j].tracks.len()
                    && (#[trigger] m[i].albums[j].tracks[k]).path == p;
            if p != r.path {
                if i != bi {
                    assert(m[i] == bs[i]);
                } else if j != ai {
                    assert(m[i].albums[j] == b.albums[j]);
                    assert(b == bs[bi]);
                } else {
                    assert(k < nt);
                    assert(m[i].albums[j].tracks[k] == a.tracks[k]);
                    assert(a == b.albums[ai]);
                    assert(b == bs[bi]);
                }
            }
        }
        if track_paths(bs).contains(p) {
            let (i, j, k) = choose|i: int, j: int, k: int|
                0 <= i < bs.len() && 0 <= j < bs[i].albums.len() && 0 <= k < bs[i].albums[j].tracks.len()
                    && (#[trigger] bs[i].albums[j].tracks[k]).path == p;
            if i != bi {
                assert(m[i] == bs[i]);
                assert(m[i].albums[j].tracks[k].path == p);
            } else {
                assert(bs[i] == b);
                if j != ai {
                    assert(m[i].albums[j] == b.albums[j]);
                    assert(m[i].albums[j].tracks[k].path == p);
                } else {
                    assert(a == b.albums[j]);
                    assert(m[i].albums[j].tracks[k] == a.tracks[k]);
                    assert(m[i].albums[j].tracks[k].path == p);
                }
            }
        }
        if p == r.path {
            assert(m[bi].albums[ai].tracks[nt].path == p);
        }
    }
    assert(track_paths(merge_one(bs, r)) =~= track_paths(bs).insert(r.path));
}

/// Filing tracks adds their paths to the paths of the library.
pub proof fn lemma_merge_all_paths(bs: Seq<BandModel>, raws: Seq<RawModel>)
    ensures
        track_paths(merge_all(bs, raws)) == track_paths(bs) + raw_paths(raws),
    decreases raws.len(),
{
    if raws.len() > 0 {
        let init = raws.drop_last();
        lemma_merge_all_paths(bs, init);
        lemma_merge_one_paths(merge_all(bs, init), raws.last());
        assert forall|p: Seq<char>| raw_paths(raws).contains(p) <==> raw_paths(init).insert(raws.last().path).contains(p) by {
            if raw_paths(raws).contains(p) {
                let m = choose|m: int| 0 <= m < raws.len() && (#[trigger] raws[m]).path == p;
                if m < init.len() {
                    assert(init[m] == raws[m]);
                }
            }
            if raw_paths(init).contains(p) {
                let m = choose|m: int| 0 <= m < init.len() && (#[trigger] init[m]).path == p;
                assert(raws[m] == init[m]);
            }
            if p == raws.last().path {
                assert(raws[raws.len() - 1].path == p);
            }
        }
        assert(raw_paths(raws) =~= raw_paths(init).insert(raws.last().path));
        assert(track_paths(merge_all(bs, raws)) =~= track_paths(bs) + raw_paths(raws));
    } else {
        assert(raw_paths(raws) =~= Set::<Seq<char>>::empty());
        assert(track_paths(bs) + raw_paths(raws) =~= track_paths(bs));
    }
}

/// Eviction removes exactly the paths of the files that must be read again.
pub proof fn lemma_evict_paths(bs: Seq<BandModel>, deleted: Seq<Seq<char>>, updated: Seq<Seq<char>>)
    ensures
        track_paths(evict_bands(bs, deleted, updated)) == track_paths(bs).filter(
            |p: Seq<char>| !obsolete_path(p, deleted, updated),
        ),
{
    broadcast use vstd::seq_lib::group_filter_ensures;

    let fb = |b: BandModel| evict_band(b, deleted, updated);
    let pb = |b: BandModel| b.albums.len() > 0;
    let fa = |a: AlbumModel| evict_album(a, deleted, updated);
    let pa = |a: AlbumModel| a.tracks.len() > 0;
    let pt = |t: TrackModel| !obsolete(t, deleted, updated);
    let mb = bs.map_values(fb);
    let out = evict_bands(bs, deleted, updated);
    let keep = |p: Seq<char>| !obsolete_path(p, deleted, updated);
    assert forall|p: Seq<char>| track_paths(out).contains(p) <==> track_paths(bs).filter(keep).contains(p) by {
        if track_paths(out).contains(p) {
            let (i, j, k) = choose|i: int, j: int, k: int|
                0 <= i < out.len() && 0 <= j < out[i].albums.len() && 0 <= k < out[i].albums[j].tracks.len()
                    && (#[trigger] out[i].albums[j].tracks[k]).path == p;
            assert(out.contains(out[i]));
            mb.lemma_filter_contains_rev(pb, out[i]);
            let m = choose|m: int| 0 <= m < mb.len() && mb[m] == out[i];
            let b0 = bs[m];
            let ma = b0.albums.map_values(fa);
            let als = out[i].albums;
            assert(als == ma.filter(pa));
            assert(als.contains(als[j]));
            ma.lemma_filter_contains_rev(pa, als[j]);
            let n = choose|n: int| 0 <= n < ma.len() && ma[n] == als[j];
            let a0 = b0.albums[n];
            assert(als[j].tracks == a0.tracks.filter(pt));
            let t = als[j].tracks[k];
            assert(als[j].tracks.contains(t));
            a0.tracks.lemma_filter_contains_rev(pt, t);
            a0.tracks.lemma_filter_pred(pt, k);
            let q = choose|q: int| 0 <= q < a0.tracks.len() && a0.tracks[q] == t;
            assert(bs[m].albums[n].tracks[q].path == p);
            assert(track_paths(bs).contains(p));
        }
        if track_paths(bs).filter(keep).contains(p) {
            let (i, j, k) = choose|i: int, j: int, k: int|
                0 <= i < bs.len() && 0 <= j < bs[i].albums.len() && 0 <= k < bs[i].albums[j].tracks.len()
                    && (#[trigger] bs[i].albums[j].tracks[k]).path == p;
            let a0 = bs[i].albums[j];
            let t = a0.tracks[k];
            assert(pt(t));
            a0.tracks.lemma_filter_contains(pt, k);
            let ea = fa(a0);
            let q = choose|q: int| 0 <= q < ea.tracks.len() && ea.tracks[q] == t;
            let ma = bs[i].albums.map_values(fa);
            assert(ma[j] == ea);
            assert(pa(ea));
            ma.lemma_filter_contains(pa, j);
            let eb = fb(bs[i]);
            let n = choose|n: int| 0 <= n < eb.albums.len() && eb.albums[n] == ea;
            assert(mb[i] == eb);
            assert(pb(eb));
            mb.lemma_filter_contains(pb, i);
            let o = choose|o: int| 0 <= o < out.len() && out[o] == eb;
            assert(out[o].albums[n].tracks[q].path == p);
        }
    }
    assert(track_paths(out) =~= track_paths(bs).filter(keep));
}

/// Some track of the band has path `p`.
pub open spec fn band_has_path(b: Band, p: Seq<char>) -> bool {
    exists|j: int, k: int|
        0 <= j < b.albums@.len() && 0 <= k < b.albums@[j].tracks@.len() && b.albums@[j].tracks@[k].path@ == p
}

/// Putting a library in order keeps the paths of its tracks.
pub proof fn lemma_polished_paths(bs: Seq<Band>, nbs: Seq<Band>)
    requires
        library_polished(bs, nbs),
    ensures
        track_paths(bands_view(nbs)) == track_paths(bands_view(bs)),
{
    let mid = choose|mid: Seq<Band>|
        {
            &&& mid.len() == bs.len()
            &&& forall|i: int| 0 <= i < bs.len() ==> band_polished(#[trigger] bs[i], mid[i])
            &&& nbs.to_multiset() == mid.to_multiset()
            &&& stably_sorted(mid, nbs)
            &&& sorted(nbs)
        };
    let bv = bands_view(bs);
    let nv = bands_view(nbs);
    // Paths of a band and of its polished form agree.
    assert forall|i: int, p: Seq<char>| 0 <= i < bs.len() implies #[trigger] band_has_path(mid[i], p)
        == band_has_path(bs[i], p) by {
        let b = bs[i];
        let nb = mid[i];
        assert(band_polished(b, nb));
        let am = choose|am: Seq<Album>|
            {
                &&& am.to_multiset() == b.albums@.to_multiset()
                &&& stably_sorted(b.albums@, am)
                &&& sorted(am)
                &&& nb.albums@.len() == am.len()
                &&& forall|x: int| 0 <= x < am.len() ==> album_polished(#[trigger] am[x], nb.albums@[x])
            };
        if band_has_path(nb, p) {
            let (j, k) = choose|j: int, k: int|
                0 <= j < nb.albums@.len() && 0 <= k < nb.albums@[j].tracks@.len() && nb.albums@[j].tracks@[k].path@ == p;
            let na = nb.albums@[j];
            let a = am[j];
            assert(album_polished(a, na));
            let t = na.tracks@[k];
            assert(na.tracks@.contains(t));
            lemma_perm_contains(a.tracks@, na.tracks@, t);
            let q = choose|q: int| 0 <= q < a.tracks@.len() && a.tracks@[q] == t;
            assert(am.contains(a));
            lemma_perm_contains(b.albums@, am, a);
            let n = choose|n: int| 0 <= n < b.albums@.len() && b.albums@[n] == a;
            assert(b.albums@[n].tracks@[q].path@ == p);
        }
        if band_has_path(b, p) {
            let (j, k) = choose|j: int, k: int|
                0 <= j < b.albums@.len() && 0 <= k < b.albums@[j].tracks@.len() && b.albums@[j].tracks@[k].path@ == p;
            let a = b.albums@[j];
            assert(b.albums@.contains(a));
            vstd::seq_lib::to_multiset_contains(b.albums@, a);
            vstd::seq_lib::to_multiset_contains(am, a);
            let n = choose|n: int| 0 <= n < am.len() && am[n] == a;
            let na = nb.albums@[n];
            assert(album_polished(am[n], na));
            let t = a.tracks@[k];
            assert(a.tracks@.contains(t));
            vstd::seq_lib::to_multiset_contains(a.tracks@, t);
            vstd::seq_lib::to_multiset_contains(na.tracks@, t);
            let q = choose|q: int| 0 <= q < na.tracks@.len() && na.tracks@[q] == t;
            assert(nb.albums@[n].tracks@[q].path@ == p);
        }
    }
    assert forall|p: Seq<char>| track_paths(nv).contains(p) <==> track_paths(bv).contains(p) by {
        if track_paths(nv).contains(p) {
            let (i, j, k) = choose|i: int, j: int, k: int|
                0 <= i < nv.len() && 0 <= j < nv[i].albums.len() && 0 <= k < nv[i].albums[j].tracks.len()
                    && (#[trigger] nv[i].albums[j].tracks[k]).path == p;
            assert(nv[i] == nbs[i]@);
            assert(nbs[i].albums@[j].tracks@[k].path@ == p);
            assert(nbs.contains(nbs[i]));
            lemma_perm_contains(mid, nbs, nbs[i]);
            let m = choose|m: int| 0 <= m < mid.len() && mid[m] == nbs[i];
            assert(mid[m].albums@[j].tracks@[k].path@ == p);
            assert(band_has_path(mid[m], p));
            assert(band_has_path(bs[m], p));
            let (j2, k2) = choose|j2: int, k2: int|
                0 <= j2 < bs[m].albums@.len() && 0 <= k2 < bs[m].albums@[j2].tracks@.len()
                    && bs[m].albums@[j2].tracks@[k2].path@ == p;
            assert(bv[m] == bs[m]@);
            assert(bv[m].albums[j2].tracks[k2].path == p);
        }
        if track_paths(bv).contains(p) {
            let (i, j, k) = choose|i: int, j: int, k: int|
                0 <= i < bv.len() && 0 <= j < bv[i].albums.len() && 0 <= k < bv[i].albums[j].tracks.len()
                    && (#[trigger] bv[i].albums[j].tracks[k]).path == p;
            assert(bv[i] == bs[i]@);
            assert(bs[i].albums@[j].tracks@[k].path@ == p);
            assert(band_has_path(bs[i], p));
            assert(band_has_path(mid[i], p));
            let (j2, k2) = choose|j2: int, k2: int|
                0 <= j2 < mid[i].albums@.len() && 0 <= k2 < mid[i].albums@[j2].tracks@.len()
                    && mid[i].albums@[j2].tracks@[k2].path@ == p;
            assert(mid.contains(mid[i]));
            vstd::seq_lib::to_multiset_contains(mid, mid[i]);
            vstd::seq_lib::to_multiset_contains(nbs, mid[i]);
            let o = choose|o: int| 0 <= o < nbs.len() && nbs[o] == mid[i];
            assert(nv[o] == nbs[o]@);
            assert(nv[o].albums[j2].tracks[k2].path == p);
        }
    }
    assert(track_paths(nv) =~= track_paths(bv));
}

/// An empty library, that of a new cache, is in order.
pub proof fn lemma_empty_library_ordered()
    ensures
        library_ordered(Seq::<Band>::empty()),
{
}

} // verus!
