//! The scanned state of a library and the logic of an incremental rescan.

use vstd::prelude::*;

use super::album::{Album, AlbumModel};
use super::band::{Band, BandModel};
use super::track::{Track, TrackModel};
use super::lemma_filter_take_step;
use super::laws::{lemma_evict_keeps_wf, lemma_evict_paths, library_ordered, library_wf, track_paths};
use crate::paths::{ancestors, parent, path_ancestors, path_parent, paths_equal, same_path};

verus! {

/// The cached state of a scanned music library.
#[derive(Clone, Debug, Default, PartialEq, Eq)]
pub struct MusicCache {
    /// The root directory of the library.
    pub root_path: Option<String>,
    /// Every directory under the root with its modification time in seconds.
    pub dirs: Vec<(String, u64)>,
    /// The bands, with their albums and tracks.
    pub bands: Vec<Band>,
}

/// A directory and its modification time, as plain values.
pub type DirStamp = (Seq<char>, u64);

/// A cache as plain values.
pub ghost struct CacheModel {
    pub root_path: Option<Seq<char>>,
    pub dirs: Seq<DirStamp>,
    pub bands: Seq<BandModel>,
}

/// The contents of a list of directory stamps.
pub open spec fn stamps_view(v: Seq<(String, u64)>) -> Seq<DirStamp> {
    v.map_values(|e: (String, u64)| (e.0@, e.1))
}

/// The contents of a list of bands.
pub open spec fn bands_view(v: Seq<Band>) -> Seq<BandModel> {
    v.map_values(|b: Band| b@)
}

/// The contents of a list of albums.
pub open spec fn albums_view(v: Seq<Album>) -> Seq<AlbumModel> {
    v.map_values(|a: Album| a@)
}

/// The contents of a list of tracks.
pub open spec fn tracks_view(v: Seq<Track>) -> Seq<TrackModel> {
    v.map_values(|t: Track| t@)
}

/// The contents of a list of strings.
pub open spec fn texts_view(v: Seq<String>) -> Seq<Seq<char>> {
    v.map_values(|s: String| s@)
}

impl View for MusicCache {
    type V = CacheModel;

    open spec fn view(&self) -> CacheModel {
        CacheModel {
            root_path: match self.root_path {
                Some(r) => Some(r@),
                None => None,
            },
            dirs: stamps_view(self.dirs@),
            bands: bands_view(self.bands@),
        }
    }
}

/// The directory `k` is listed.
pub open spec fn has_dir(dirs: Seq<DirStamp>, k: Seq<char>) -> bool {
    exists|i: int| 0 <= i < dirs.len() && (#[trigger] dirs[i]).0 == k
}

/// The directories of `old` that `cur` no longer lists.
pub open spec fn deleted_dirs(old: Seq<DirStamp>, cur: Seq<DirStamp>) -> Seq<Seq<char>> {
    old.filter(|e: DirStamp| !has_dir(cur, e.0)).map_values(|e: DirStamp| e.0)
}

/// The directories of `cur` that `old` does not list with the same time.
pub open spec fn changed_dirs(old: Seq<DirStamp>, cur: Seq<DirStamp>) -> Seq<Seq<char>> {
    cur.filter(|e: DirStamp| !old.contains(e)).map_values(|e: DirStamp| e.0)
}

/// No directory is listed twice.
pub open spec fn distinct_dirs(dirs: Seq<DirStamp>) -> bool {
    forall|i: int, j: int| 0 <= i < j < dirs.len() ==> (#[trigger] dirs[i]).0 != (#[trigger] dirs[j]).0
}

/// A listing with each directory kept once, at its last listing (a later
/// listing of a directory replaces an earlier one).
pub open spec fn dedup_stamps(s: Seq<DirStamp>) -> Seq<DirStamp>
    decreases s.len(),
{
    if s.len() == 0 {
        Seq::empty()
    } else if has_dir(s.drop_first(), s[0].0) {
        dedup_stamps(s.drop_first())
    } else {
        seq![s[0]] + dedup_stamps(s.drop_first())
    }
}

/// A file must be read again: its directory is one to rescan, or the file
/// or one of its ancestors is a deleted directory.
pub open spec fn obsolete_path(path: Seq<char>, deleted: Seq<Seq<char>>, updated: Seq<Seq<char>>) -> bool {
    ||| (path_parent(path) matches Some(p) && exists|k: int|
        0 <= k < updated.len() && paths_equal(p, #[trigger] updated[k]))
    ||| exists|k: int|
        0 <= k < path_ancestors(path).len() && deleted.contains(#[trigger] path_ancestors(path)[k])
}

/// A track must be read again: its file must.
pub open spec fn obsolete(t: TrackModel, deleted: Seq<Seq<char>>, updated: Seq<Seq<char>>) -> bool {
    obsolete_path(t.path, deleted, updated)
}

/// An album without its obsolete tracks.
pub open spec fn evict_album(a: AlbumModel, deleted: Seq<Seq<char>>, updated: Seq<Seq<char>>) -> AlbumModel {
    AlbumModel {
        name: a.name,
        text: a.text,
        tracks: a.tracks.filter(|t: TrackModel| !obsolete(t, deleted, updated)),
    }
}

/// A band without its obsolete tracks and without the albums left empty.
pub open spec fn evict_band(b: BandModel, deleted: Seq<Seq<char>>, updated: Seq<Seq<char>>) -> BandModel {
    BandModel {
        dir: b.dir,
        name: b.name,
        text: b.text,
        genres: b.genres,
        albums: b.albums.map_values(|a: AlbumModel| evict_album(a, deleted, updated)).filter(
            |a: AlbumModel| a.tracks.len() > 0,
        ),
    }
}

/// Bands without their obsolete tracks and without what is left empty.
pub open spec fn evict_bands(bs: Seq<BandModel>, deleted: Seq<Seq<char>>, updated: Seq<Seq<char>>) -> Seq<BandModel> {
    bs.map_values(|b: BandModel| evict_band(b, deleted, updated)).filter(
        |b: BandModel| b.albums.len() > 0,
    )
}

/// Whether `v` holds a string equal to `s`.
pub(crate) fn contains_string(v: &Vec<String>, s: &String) -> (r: bool)
    ensures
        r == texts_view(v@).contains(s@),
{
    let mut i: usize = 0;
    while i < v.len()
        invariant
            i <= v.len(),
            forall|k: int| 0 <= k < i ==> v@[k]@ != s@,
        decreases v.len() - i,
    {
        if v[i] == *s {
            assert(texts_view(v@)[i as int] == s@);
            return true;
        }
        i = i + 1;
    }
    assert forall|k: int| 0 <= k < texts_view(v@).len() implies texts_view(v@)[k] != s@ by {
        assert(texts_view(v@)[k] == v@[k]@);
    }
    false
}

/// Whether a track must be read again.
fn is_obsolete(t: &Track, deleted: &Vec<String>, updated: &Vec<String>) -> (r: bool)
    ensures
        r == obsolete(t@, texts_view(deleted@), texts_view(updated@)),
{
    let ghost del = texts_view(deleted@);
    let ghost upd = texts_view(updated@);
    if let Some(p) = parent(t.path.as_str()) {
        let mut k: usize = 0;
        while k < updated.len()
            invariant
                k <= updated.len(),
                upd == texts_view(updated@),
                path_parent(t.path@) == Some(p@),
                forall|m: int| 0 <= m < k ==> !paths_equal(p@, #[trigger] upd[m]),
            decreases updated.len() - k,
        {
            if same_path(p.as_str(), updated[k].as_str()) {
                assert(paths_equal(p@, upd[k as int]));
                return true;
            }
            k = k + 1;
        }
    }
    let anc = ancestors(t.path.as_str());
    let mut k: usize = 0;
    while k < anc.len()
        invariant
            k <= anc.len(),
            del == texts_view(deleted@),
            texts_view(anc@) == path_ancestors(t.path@),
            forall|m: int| 0 <= m < k ==> !del.contains(#[trigger] path_ancestors(t.path@)[m]),
        decreases anc.len() - k,
    {
        if contains_string(deleted, &anc[k]) {
            assert(path_ancestors(t.path@)[k as int] == anc@[k as int]@);
            return true;
        }
        assert(path_ancestors(t.path@)[k as int] == anc@[k as int]@);
        k = k + 1;
    }
    false
}


/// The album without its obsolete tracks.
fn evict_from_album(album: Album, deleted: &Vec<String>, updated: &Vec<String>) -> (r: Album)
    ensures
        r@ == evict_album(album@, texts_view(deleted@), texts_view(updated@)),
{
    let ghost del = texts_view(deleted@);
    let ghost upd = texts_view(updated@);
    let ghost keep = |t: TrackModel| !obsolete(t, del, upd);
    let Album { name, text, tracks } = album;
    let ghost ts = tracks_view(tracks@);
    let mut kept: Vec<Track> = Vec::new();
    for t in it: tracks.into_iter()
        invariant
            ts == tracks_view(it.seq()),
            del == texts_view(deleted@),
            upd == texts_view(updated@),
            keep == (|t: TrackModel| !obsolete(t, del, upd)),
            tracks_view(kept@) == ts.take(it.index() as int).filter(keep),
    {
        proof {
            lemma_filter_take_step(ts, keep, it.index() as int);
        }
        if !is_obsolete(&t, deleted, updated) {
            let ghost prev = tracks_view(kept@);
            kept.push(t);
            assert(tracks_view(kept@) =~= prev.push(ts[it.index() as int]));
        }
    }
    assert(ts.take(ts.len() as int) =~= ts);
    Album { name, text, tracks: kept }
}

/// The band without its obsolete tracks and without the albums left empty.
fn evict_from_band(band: Band, deleted: &Vec<String>, updated: &Vec<String>) -> (r: Band)
    ensures
        r@ == evict_band(band@, texts_view(deleted@), texts_view(updated@)),
{
    let ghost del = texts_view(deleted@);
    let ghost upd = texts_view(updated@);
    let ghost f = |a: AlbumModel| evict_album(a, del, upd);
    let ghost nonempty = |a: AlbumModel| a.tracks.len() > 0;
    let Band { dir, name, text, genres, albums } = band;
    let ghost als = albums_view(albums@).map_values(f);
    let mut kept: Vec<Album> = Vec::new();
    for a in it: albums.into_iter()
        invariant
            als == albums_view(it.seq()).map_values(f),
            del == texts_view(deleted@),
            upd == texts_view(updated@),
            f == (|a: AlbumModel| evict_album(a, del, upd)),
            nonempty == (|a: AlbumModel| a.tracks.len() > 0),
            albums_view(kept@) == als.take(it.index() as int).filter(nonempty),
    {
        proof {
            lemma_filter_take_step(als, nonempty, it.index() as int);
        }
        let e = evict_from_album(a, deleted, updated);
        if e.tracks.len() > 0 {
            let ghost prev = albums_view(kept@);
            kept.push(e);
            assert(albums_view(kept@) =~= prev.push(als[it.index() as int]));
        }
    }
    assert(als.take(als.len() as int) =~= als);
    Band { dir, name, text, genres, albums: kept }
}

/// Whether directory `k` is listed.
fn dir_listed(dirs: &Vec<(String, u64)>, k: &String) -> (r: bool)
    ensures
        r == has_dir(stamps_view(dirs@), k@),
{
    let ghost sv = stamps_view(dirs@);
    let mut i: usize = 0;
    while i < dirs.len()
        invariant
            i <= dirs.len(),
            sv == stamps_view(dirs@),
            forall|m: int| 0 <= m < i ==> (#[trigger] sv[m]).0 != k@,
        decreases dirs.len() - i,
    {
        if dirs[i].0 == *k {
            assert(sv[i as int].0 == k@);
            return true;
        }
        i = i + 1;
    }
    false
}

/// Whether directory `k` is listed with time `t`.
fn stamp_listed(dirs: &Vec<(String, u64)>, k: &String, t: u64) -> (r: bool)
    ensures
        r == stamps_view(dirs@).contains((k@, t)),
{
    let ghost sv = stamps_view(dirs@);
    let mut i: usize = 0;
    while i < dirs.len()
        invariant
            i <= dirs.len(),
            sv == stamps_view(dirs@),
            forall|m: int| 0 <= m < i ==> #[trigger] sv[m] != (k@, t),
        decreases dirs.len() - i,
    {
        if dirs[i].0 == *k && dirs[i].1 == t {
            assert(sv[i as int] == (k@, t));
            return true;
        }
        i = i + 1;
    }
    false
}

/// Whether directory `k` is listed again after position `i`.
fn listed_after(dirs: &Vec<(String, u64)>, i: usize, k: &String) -> (r: bool)
    requires
        i < dirs.len(),
    ensures
        r == has_dir(stamps_view(dirs@).skip(i + 1), k@),
{
    let ghost rest = stamps_view(dirs@).skip(i + 1);
    let mut j: usize = i + 1;
    while j < dirs.len()
        invariant
            i < j <= dirs.len(),
            rest == stamps_view(dirs@).skip(i + 1),
            forall|m: int| 0 <= m < j - i - 1 ==> (#[trigger] rest[m]).0 != k@,
        decreases dirs.len() - j,
    {
        if dirs[j].0 == *k {
            assert(rest[j - i - 1].0 == k@);
            return true;
        }
        j = j + 1;
    }
    false
}

/// The listing with each directory kept once, at its last listing.
pub fn dedup_dirs(dirs: &Vec<(String, u64)>) -> (r: Vec<(String, u64)>)
    ensures
        stamps_view(r@) == dedup_stamps(stamps_view(dirs@)),
{
    let ghost sv = stamps_view(dirs@);
    let mut r: Vec<(String, u64)> = Vec::new();
    let mut i: usize = 0;
    assert(sv.skip(0) =~= sv);
    while i < dirs.len()
        invariant
            i <= dirs.len(),
            sv == stamps_view(dirs@),
            dedup_stamps(sv) == stamps_view(r@) + dedup_stamps(sv.skip(i as int)),
        decreases dirs.len() - i,
    {
        let ghost rest = sv.skip(i as int);
        assert(rest[0] == sv[i as int]);
        assert(rest.drop_first() =~= sv.skip(i + 1));
        if !listed_after(dirs, i, &dirs[i].0) {
            let ghost prev = stamps_view(r@);
            r.push((dirs[i].0.clone(), dirs[i].1));
            assert(stamps_view(r@) =~= prev.push(sv[i as int]));
            assert(dedup_stamps(rest) == seq![sv[i as int]] + dedup_stamps(sv.skip(i + 1)));
            assert(stamps_view(r@) + dedup_stamps(sv.skip(i + 1)) =~= prev + (seq![sv[i as int]]
                + dedup_stamps(sv.skip(i + 1))));
        }
        i = i + 1;
    }
    assert(sv.skip(dirs.len() as int) =~= Seq::<DirStamp>::empty());
    assert(stamps_view(r@) + Seq::<DirStamp>::empty() =~= stamps_view(r@));
    r
}

/// A directory is listed after removing repeats exactly when it was listed
/// before.
pub proof fn lemma_dedup_has_dir(s: Seq<DirStamp>, k: Seq<char>)
    ensures
        has_dir(dedup_stamps(s), k) <==> has_dir(s, k),
    decreases s.len(),
{
    if s.len() > 0 {
        let t = s.drop_first();
        lemma_dedup_has_dir(t, k);
        let d = dedup_stamps(t);
        if has_dir(s, k) {
            let i = choose|i: int| 0 <= i < s.len() && (#[trigger] s[i]).0 == k;
            if i > 0 {
                assert(t[i - 1] == s[i]);
            }
        }
        if !has_dir(t, s[0].0) {
            let e = seq![s[0]] + d;
            if has_dir(e, k) {
                let i = choose|i: int| 0 <= i < e.len() && (#[trigger] e[i]).0 == k;
                if i > 0 {
                    assert(e[i] == d[i - 1]);
                } else {
                    assert(s[0].0 == k);
                }
            }
            if has_dir(d, k) {
                let i = choose|i: int| 0 <= i < d.len() && (#[trigger] d[i]).0 == k;
                assert(e[i + 1] == d[i]);
            }
            if s[0].0 == k {
                assert(e[0] == s[0]);
            }
        } else if s[0].0 == k {
            assert(has_dir(t, k));
        }
        if has_dir(t, k) {
            let i = choose|i: int| 0 <= i < t.len() && (#[trigger] t[i]).0 == k;
            assert(s[i + 1] == t[i]);
        }
    }
}

/// Removing repeats leaves no directory listed twice.
pub proof fn lemma_dedup_distinct(s: Seq<DirStamp>)
    ensures
        distinct_dirs(dedup_stamps(s)),
    decreases s.len(),
{
    if s.len() > 0 {
        let t = s.drop_first();
        lemma_dedup_distinct(t);
        if !has_dir(t, s[0].0) {
            let d = dedup_stamps(t);
            let e = seq![s[0]] + d;
            lemma_dedup_has_dir(t, s[0].0);
            assert forall|i: int, j: int| 0 <= i < j < e.len() implies (#[trigger] e[i]).0 != (
            #[trigger] e[j]).0 by {
                assert(e[j] == d[j - 1]);
                if i == 0 {
                    assert(e[0] == s[0]);
                    if d[j - 1].0 == s[0].0 {
                        assert(has_dir(d, s[0].0));
                    }
                } else {
                    assert(e[i] == d[i - 1]);
                }
            }
        }
    }
}

/// A listing without repeats is left as it is.
pub proof fn lemma_dedup_distinct_unchanged(s: Seq<DirStamp>)
    requires
        distinct_dirs(s),
    ensures
        dedup_stamps(s) == s,
    decreases s.len(),
{
    if s.len() > 0 {
        let t = s.drop_first();
        assert forall|i: int, j: int| 0 <= i < j < t.len() implies (#[trigger] t[i]).0 != (
        #[trigger] t[j]).0 by {
            assert(t[i] == s[i + 1]);
            assert(t[j] == s[j + 1]);
        }
        lemma_dedup_distinct_unchanged(t);
        if has_dir(t, s[0].0) {
            let i = choose|i: int| 0 <= i < t.len() && (#[trigger] t[i]).0 == s[0].0;
            assert(s[i + 1] == t[i]);
        }
        assert(seq![s[0]] + t =~= s);
    }
}

/// The directories of `old` that `cur` no longer lists.
fn find_deleted(old: &Vec<(String, u64)>, cur: &Vec<(String, u64)>) -> (r: Vec<String>)
    ensures
        texts_view(r@) == deleted_dirs(stamps_view(old@), stamps_view(cur@)),
{
    let ghost ov = stamps_view(old@);
    let ghost cv = stamps_view(cur@);
    let ghost p = |e: DirStamp| !has_dir(cv, e.0);
    let ghost key = |e: DirStamp| e.0;
    let mut r: Vec<String> = Vec::new();
    let mut i: usize = 0;
    while i < old.len()
        invariant
            i <= old.len(),
            ov == stamps_view(old@),
            cv == stamps_view(cur@),
            p == (|e: DirStamp| !has_dir(cv, e.0)),
            key == (|e: DirStamp| e.0),
            texts_view(r@) == ov.take(i as int).filter(p).map_values(key),
        decreases old.len() - i,
    {
        proof {
            lemma_filter_take_step(ov, p, i as int);
        }
        if !dir_listed(cur, &old[i].0) {
            let ghost prev = ov.take(i as int).filter(p);
            let ghost prev_r = texts_view(r@);
            r.push(old[i].0.clone());
            assert(texts_view(r@) =~= prev_r.push(ov[i as int].0));
            assert(prev.push(ov[i as int]).map_values(key) =~= prev.map_values(key).push(ov[i as int].0));
        }
        i = i + 1;
    }
    assert(ov.take(old.len() as int) =~= ov);
    r
}

/// The directories of `cur` that `old` does not list with the same time.
fn find_changed(old: &Vec<(String, u64)>, cur: &Vec<(String, u64)>) -> (r: Vec<String>)
    ensures
        texts_view(r@) == changed_dirs(stamps_view(old@), stamps_view(cur@)),
{
    let ghost ov = stamps_view(old@);
    let ghost cv = stamps_view(cur@);
    let ghost p = |e: DirStamp| !ov.contains(e);
    let ghost key = |e: DirStamp| e.0;
    let mut r: Vec<String> = Vec::new();
    let mut i: usize = 0;
    while i < cur.len()
        invariant
            i <= cur.len(),
            ov == stamps_view(old@),
            cv == stamps_view(cur@),
            p == (|e: DirStamp| !ov.contains(e)),
            key == (|e: DirStamp| e.0),
            texts_view(r@) == cv.take(i as int).filter(p).map_values(key),
        decreases cur.len() - i,
    {
        proof {
            lemma_filter_take_step(cv, p, i as int);
        }
        let same = stamp_listed(old, &cur[i].0, cur[i].1);
        if !same {
            let ghost prev = cv.take(i as int).filter(p);
            let ghost prev_r = texts_view(r@);
            r.push(cur[i].0.clone());
            assert(texts_view(r@) =~= prev_r.push(cv[i as int].0));
            assert(prev.push(cv[i as int]).map_values(key) =~= prev.map_values(key).push(cv[i as int].0));
        }
        i = i + 1;
    }
    assert(cv.take(cur.len() as int) =~= cv);
    r
}

/// The root of a rescan differs from the cached root (paths compare by
/// their components), or there is none.
pub open spec fn root_changed(old_root: Option<Seq<char>>, root: Seq<char>) -> bool {
    match old_root {
        Some(r) => !paths_equal(r, root),
        None => true,
    }
}

/// The directories a rescan forgets: none when the root changed.
pub open spec fn scan_deleted(c: CacheModel, root: Seq<char>, cur: Seq<DirStamp>) -> Seq<Seq<char>> {
    if root_changed(c.root_path, root) {
        Seq::empty()
    } else {
        deleted_dirs(c.dirs, cur)
    }
}

/// The directories a rescan reads: all of them when the root changed.
pub open spec fn scan_updated(c: CacheModel, root: Seq<char>, cur: Seq<DirStamp>) -> Seq<Seq<char>> {
    if root_changed(c.root_path, root) {
        cur.map_values(|e: DirStamp| e.0)
    } else {
        changed_dirs(c.dirs, cur)
    }
}

impl MusicCache {
    /// The first half of a rescan of `root`, given every directory under it
    /// with its modification time. A new root drops every band and has every
    /// directory read; otherwise the directories that disappeared are
    /// forgotten and those new or modified are read. When there is nothing to
    /// forget or read the result is `None`; otherwise the obsolete tracks are
    /// evicted and the result lists the directories to read. The cache lists
    /// each directory once, before and after.
    pub fn begin_scan(&mut self, root: &str, current_dirs: &Vec<(String, u64)>) -> (r: Option<Vec<String>>)
        requires
            distinct_dirs(old(self)@.dirs),
        ensures
            distinct_dirs(final(self)@.dirs),
            final(self)@.root_path == if root_changed(old(self)@.root_path, root@) {
                Some(root@)
            } else {
                old(self)@.root_path
            },
            final(self)@.dirs == old(self)@.dirs,
            library_wf(old(self)@.bands) ==> library_wf(final(self)@.bands),
            r is None && !root_changed(old(self)@.root_path, root@) ==> final(self).bands == old(self).bands,
            r is None && root_changed(old(self)@.root_path, root@) ==> final(self).bands@.len() == 0,
            r is None && library_ordered(old(self).bands@) ==> library_ordered(final(self).bands@),
            ({
                let del = scan_deleted(old(self)@, root@, stamps_view(current_dirs@));
                let upd = scan_updated(old(self)@, root@, stamps_view(current_dirs@));
                let start = if root_changed(old(self)@.root_path, root@) {
                    Seq::<BandModel>::empty()
                } else {
                    old(self)@.bands
                };
                &&& r is None <==> (del.len() == 0 && upd.len() == 0)
                &&& r is None ==> final(self)@.bands == start
                &&& r matches Some(u) ==> texts_view(u@) == upd && final(self)@.bands == evict_bands(
                    start,
                    del,
                    upd,
                )
            }),
    {
        let ghost cv = stamps_view(current_dirs@);
        let changed = match &self.root_path {
            Some(r) => !same_path(r.as_str(), root),
            None => true,
        };
        let deleted: Vec<String>;
        let updated: Vec<String>;
        if changed {
            self.root_path = Some(root.to_string());
            deleted = Vec::new();
            let mut u: Vec<String> = Vec::new();
            let mut i: usize = 0;
            while i < current_dirs.len()
                invariant
                    i <= current_dirs.len(),
                    cv == stamps_view(current_dirs@),
                    texts_view(u@) == cv.take(i as int).map_values(|e: DirStamp| e.0),
                decreases current_dirs.len() - i,
            {
                let ghost prev_u = texts_view(u@);
                u.push(current_dirs[i].0.clone());
                assert(texts_view(u@) =~= prev_u.push(cv[i as int].0));
                assert(cv.take(i + 1).map_values(|e: DirStamp| e.0) =~= cv.take(i as int).map_values(
                    |e: DirStamp| e.0,
                ).push(cv[i as int].0));
                i = i + 1;
            }
            assert(cv.take(current_dirs.len() as int) =~= cv);
            updated = u;
            self.bands = Vec::new();
        } else {
            deleted = find_deleted(&self.dirs, current_dirs);
            updated = find_changed(&self.dirs, current_dirs);
        }
        assert(texts_view(deleted@) =~= scan_deleted(old(self)@, root@, cv));
        if deleted.len() == 0 && updated.len() == 0 {
            return None;
        }
        self.evict_obsolete_data(&deleted, &updated);
        Some(updated)
    }

    /// Removes the tracks that a rescan will read again or whose directory was
    /// deleted, then the albums and bands left empty.
    pub fn evict_obsolete_data(&mut self, deleted_dirs: &Vec<String>, updated_dirs: &Vec<String>)
        ensures
            final(self)@.bands == evict_bands(
                old(self)@.bands,
                texts_view(deleted_dirs@),
                texts_view(updated_dirs@),
            ),
            final(self)@.root_path == old(self)@.root_path,
            final(self)@.dirs == old(self)@.dirs,
            library_wf(old(self)@.bands) ==> library_wf(final(self)@.bands),
            track_paths(final(self)@.bands) == track_paths(old(self)@.bands).filter(
                |p: Seq<char>| !obsolete_path(p, texts_view(deleted_dirs@), texts_view(updated_dirs@)),
            ),
    {
        proof {
            lemma_evict_paths(bands_view(self.bands@), texts_view(deleted_dirs@), texts_view(updated_dirs@));
            if library_wf(bands_view(self.bands@)) {
                lemma_evict_keeps_wf(bands_view(self.bands@), texts_view(deleted_dirs@), texts_view(updated_dirs@));
            }
        }
        let ghost del = texts_view(deleted_dirs@);
        let ghost upd = texts_view(updated_dirs@);
        let ghost f = |b: BandModel| evict_band(b, del, upd);
        let ghost nonempty = |b: BandModel| b.albums.len() > 0;
        let ghost bs = bands_view(self.bands@).map_values(f);
        let mut bands: Vec<Band> = Vec::new();
        std::mem::swap(&mut bands, &mut self.bands);
        let mut kept: Vec<Band> = Vec::new();
        for b in it: bands.into_iter()
            invariant
                bs == bands_view(it.seq()).map_values(f),
                del == texts_view(deleted_dirs@),
                upd == texts_view(updated_dirs@),
                f == (|b: BandModel| evict_band(b, del, upd)),
                nonempty == (|b: BandModel| b.albums.len() > 0),
                bands_view(kept@) == bs.take(it.index() as int).filter(nonempty),
        {
            proof {
                lemma_filter_take_step(bs, nonempty, it.index() as int);
            }
            let e = evict_from_band(b, deleted_dirs, updated_dirs);
            if e.albums.len() > 0 {
                let ghost prev = bands_view(kept@);
                kept.push(e);
                assert(bands_view(kept@) =~= prev.push(bs[it.index() as int]));
            }
        }
        assert(bs.take(bs.len() as int) =~= bs);
        self.bands = kept;
    }
}

} // verus!
