//! What the lookups, the search, the rescan and the filing are for, stated
//! over their inputs and results.

use vstd::prelude::*;

use super::band::{Band, BandModel};
use super::cache::{changed_dirs, deleted_dirs, distinct_dirs, evict_bands, has_dir, obsolete_path, DirStamp};
use super::laws::{lemma_evict_paths, track_paths};
use super::scan::{audio_extensions, is_audio_path};
use super::search::{
    candidate_view, check_view, expected_checks, kept, picked_bands, search_outcome, stage_items, target_for,
    tier_items, band_items, valid_plan, Check, CheckView, FiltersView, Pos, Stage, Tier,
};
use super::{album_named, albums_named, band_albums_named, genre_bands, has_genre, PlaybackTarget, SearchIntent};
use crate::paths::{path_ancestors, path_extension, path_parent, paths_equal};
use crate::text::{lowercase, prepared};

verus! {

/// A search asks the ranking about its stages in plan order, the k-th call
/// for the k-th stage, and stops at the first stage whose picks keep
/// something; when that is the first stage, the ranking is asked once and
/// the result is that stage's picks. For a free-text query the first stage
/// is the bands, so a band that the ranking keeps makes the result a band
/// target holding the picked bands.
pub proof fn lemma_search_tries_stages_in_order<F: Fn(&Stage) -> Vec<usize>>(
    bands: Seq<Band>,
    intent: SearchIntent,
    rank: F,
    stages: Seq<Stage>,
    outs: Seq<Vec<usize>>,
    r: PlaybackTarget,
)
    requires
        search_outcome(bands, intent, rank, stages, outs, r),
    ensures
        1 <= outs.len() <= stages.len(),
        forall|j: int| 0 <= j < outs.len() ==> call_ensures(rank, (&stages[j],), #[trigger] outs[j]),
        forall|j: int| 0 <= j < outs.len() - 1 ==> kept(stages[j], (#[trigger] outs[j])@).len() == 0,
        kept(stages[0], outs[0]@).len() > 0 ==> outs.len() == 1 && target_for(bands, stages[0], outs[0]@, r),
        intent is Global && kept(stages[0], outs[0]@).len() > 0 ==> (r matches PlaybackTarget::Band(v)
            && super::derefs(v@) == picked_bands(bands, stages[0], kept(stages[0], outs[0]@))),
        (forall|j: int| 0 <= j < outs.len() ==> kept(stages[j], (#[trigger] outs[j])@).len() == 0) ==> r is Nothing,
{
    if kept(stages[0], outs[0]@).len() > 0 && outs.len() > 1 {
        assert(kept(stages[0], outs[0]@).len() == 0);
    }
    if intent is Global {
        assert(stages[0].tier == Tier::Bands);
    }
    if forall|j: int| 0 <= j < outs.len() ==> kept(stages[j], (#[trigger] outs[j])@).len() == 0 {
        assert(kept(stages[outs.len() - 1], outs[outs.len() - 1]@).len() == 0);
    }
}

/// Every element of every piece holds `p`, so every element of the pieces
/// joined does.
pub proof fn lemma_flatten_forall<A>(ss: Seq<Seq<A>>, p: spec_fn(A) -> bool)
    requires
        forall|i: int, j: int| 0 <= i < ss.len() && 0 <= j < ss[i].len() ==> p(#[trigger] ss[i][j]),
    ensures
        forall|k: int| 0 <= k < ss.flatten().len() ==> p(#[trigger] ss.flatten()[k]),
    decreases ss.len(),
{
    if ss.len() > 0 {
        let rest = ss.drop_first();
        assert forall|i: int, j: int| 0 <= i < rest.len() && 0 <= j < rest[i].len() implies p(#[trigger] rest[i][j]) by {
            assert(rest[i] == ss[i + 1]);
        }
        lemma_flatten_forall(rest, p);
        let f = ss.flatten();
        assert(f == ss[0] + rest.flatten());
        assert forall|k: int| 0 <= k < f.len() implies p(#[trigger] f[k]) by {
            if k < ss[0].len() {
                assert(f[k] == ss[0][k]);
            } else {
                assert(f[k] == rest.flatten()[k - ss[0].len()]);
            }
        }
    }
}

/// Each candidate of a tier carries the comparisons expected at its position.
pub proof fn lemma_tier_items_checks(bands: Seq<Band>, f: FiltersView, tier: Tier)
    ensures
        forall|k: int| 0 <= k < tier_items(bands, f, tier).len() ==> (#[trigger] tier_items(bands, f, tier)[k]).1
            == expected_checks(bands, f, tier, tier_items(bands, f, tier)[k].0),
{
    let p = |x: (Pos, Seq<CheckView>)| x.1 == expected_checks(bands, f, tier, x.0);
    let ss = Seq::new(bands.len(), |i: int| band_items(bands, f, tier, i));
    assert forall|i: int, j: int| 0 <= i < ss.len() && 0 <= j < ss[i].len() implies p(#[trigger] ss[i][j]) by {
        if tier == Tier::Tracks {
            let inner = Seq::new(
                bands[i].albums@.len(),
                |a: int|
                    Seq::new(
                        bands[i].albums@[a].tracks@.len(),
                        |t: int| ((i, a, t), expected_checks(bands, f, tier, (i, a, t))),
                    ),
            );
            assert(ss[i] == inner.flatten());
            lemma_flatten_forall(inner, p);
        }
    }
    lemma_flatten_forall(ss, p);
    assert(tier_items(bands, f, tier) == ss.flatten());
}

/// Each candidate of a stage built for filters `f` addresses an item of the
/// library and carries the comparisons expected at its position.
pub proof fn lemma_stage_candidate_checks(bands: Seq<Band>, f: FiltersView, tier: Tier, st: Stage, k: int)
    requires
        super::search::stage_is(st, bands, f, tier),
        0 <= k < st.candidates@.len(),
    ensures
        super::search::cand_in_range(bands, tier, st.candidates@[k]),
        st.candidates@[k].checks@.map_values(|x: Check| check_view(x)) == expected_checks(
            bands,
            f,
            tier,
            (st.candidates@[k].band as int, st.candidates@[k].album as int, st.candidates@[k].track as int),
        ),
{
    lemma_tier_items_checks(bands, f, tier);
    let c = st.candidates@[k];
    assert(stage_items(st)[k] == candidate_view(c));
    assert(tier_items(bands, f, tier)[k] == candidate_view(c));
}

/// The check at position `m` of a candidate whose comparisons view as a
/// scoring of `text` against `q` is such a scoring.
proof fn lemma_score_at(c: super::search::Candidate, m: int, text: Seq<char>, q: Seq<char>)
    requires
        0 <= m < c.checks@.len(),
        c.checks@.map_values(|x: Check| check_view(x))[m] == (false, seq![text], q),
    ensures
        c.checks@[m] matches Check::Score { text: t, query } && t@ == text && query@ == q,
{
    assert(c.checks@.map_values(|x: Check| check_view(x))[m] == check_view(c.checks@[m]));
    match c.checks@[m] {
        Check::Score { text: t, query } => {
            assert(seq![t@][0] == seq![text][0]);
        },
        Check::Gate { texts, query } => {},
    }
}

/// The tier a filtered search looks at, and how each filter given is
/// applied to each candidate of that tier: the genre filter gates on the
/// band's genres, the band filter scores the band's search text, the album
/// filter the album's (below the bands tier), the track filter the track's
/// (at the tracks tier); each against the normalised filter.
pub proof fn lemma_filters_checked(
    bands: Seq<Band>,
    band: Option<String>,
    album: Option<String>,
    track: Option<String>,
    genre: Option<String>,
    stages: Seq<Stage>,
)
    requires
        valid_plan(bands, SearchIntent::Targeted { band, album, track, genre }, stages),
    ensures
        stages.len() == 1,
        stages[0].tier == if band is Some && album is None && track is None && genre is None {
            Tier::Bands
        } else if album is Some && track is None && genre is None {
            Tier::Albums
        } else {
            Tier::Tracks
        },
        forall|k: int|
            0 <= k < stages[0].candidates@.len() ==> {
                let c = #[trigger] stages[0].candidates@[k];
                &&& c.band < bands.len()
                &&& (genre matches Some(g) ==> exists|m: int|
                    0 <= m < c.checks@.len() && (#[trigger] c.checks@[m] matches Check::Gate { texts, query }
                        && crate::text::strings_view(texts@) == crate::text::strings_view(bands[c.band as int].genres@)
                        && query@ == prepared(g@)))
                &&& (band matches Some(bf) ==> exists|m: int|
                    0 <= m < c.checks@.len() && (#[trigger] c.checks@[m] matches Check::Score { text, query }
                        && text@ == bands[c.band as int].text@ && query@ == prepared(bf@)))
                &&& (stages[0].tier != Tier::Bands ==> (album matches Some(af) ==> exists|m: int|
                    0 <= m < c.checks@.len() && (#[trigger] c.checks@[m] matches Check::Score { text, query }
                        && text@ == bands[c.band as int].albums@[c.album as int].text@ && query@ == prepared(af@))))
                &&& (stages[0].tier == Tier::Tracks ==> (track matches Some(tf) ==> exists|m: int|
                    0 <= m < c.checks@.len() && (#[trigger] c.checks@[m] matches Check::Score { text, query }
                        && text@ == bands[c.band as int].albums@[c.album as int].tracks@[c.track as int].text@
                        && query@ == prepared(tf@))))
            },
{
    let f: FiltersView = (
        None,
        super::search::normalised(band),
        super::search::normalised(album),
        super::search::normalised(track),
        super::search::normalised(genre),
    );
    let tier = super::search::targeted_tier(f.1, f.2, f.3, f.4);
    let st = stages[0];
    assert forall|k: int| 0 <= k < st.candidates@.len() implies {
        let c = #[trigger] st.candidates@[k];
        &&& c.band < bands.len()
        &&& (genre matches Some(g) ==> exists|m: int|
            0 <= m < c.checks@.len() && (#[trigger] c.checks@[m] matches Check::Gate { texts, query }
                && crate::text::strings_view(texts@) == crate::text::strings_view(bands[c.band as int].genres@)
                && query@ == prepared(g@)))
        &&& (band matches Some(bf) ==> exists|m: int|
            0 <= m < c.checks@.len() && (#[trigger] c.checks@[m] matches Check::Score { text, query }
                && text@ == bands[c.band as int].text@ && query@ == prepared(bf@)))
        &&& (st.tier != Tier::Bands ==> (album matches Some(af) ==> exists|m: int|
            0 <= m < c.checks@.len() && (#[trigger] c.checks@[m] matches Check::Score { text, query }
                && text@ == bands[c.band as int].albums@[c.album as int].text@ && query@ == prepared(af@))))
        &&& (st.tier == Tier::Tracks ==> (track matches Some(tf) ==> exists|m: int|
            0 <= m < c.checks@.len() && (#[trigger] c.checks@[m] matches Check::Score { text, query }
                && text@ == bands[c.band as int].albums@[c.album as int].tracks@[c.track as int].text@
                && query@ == prepared(tf@))))
    } by {
        lemma_stage_candidate_checks(bands, f, tier, st, k);
        let c = st.candidates@[k];
        let views = c.checks@.map_values(|x: Check| check_view(x));
        let b = bands[c.band as int];
        let a = b.albums@[c.album as int];
        let t = a.tracks@[c.track as int];
        let gate: Seq<CheckView> = match f.4 {
            Some(g) => seq![(true, crate::text::strings_view(b.genres@), g)],
            None => Seq::empty(),
        };
        let bp = super::search::opt_score(b.text@, f.1);
        let ap: Seq<CheckView> = if tier == Tier::Bands {
            Seq::empty()
        } else {
            super::search::opt_score(a.text@, f.2)
        };
        let tp: Seq<CheckView> = if tier == Tier::Tracks {
            super::search::opt_score(t.text@, f.3)
        } else {
            Seq::empty()
        };
        assert(views == gate + bp + ap + tp);
        if let Some(g) = genre {
            assert(views[0] == (true, crate::text::strings_view(b.genres@), prepared(g@)));
            assert(views[0] == check_view(c.checks@[0]));
            match c.checks@[0] {
                Check::Gate { texts, query } => {},
                Check::Score { text, query } => {},
            }
        }
        if let Some(bf) = band {
            lemma_score_at(c, gate.len() as int, b.text@, prepared(bf@));
        }
        if let Some(af) = album {
            if tier != Tier::Bands {
                lemma_score_at(c, (gate.len() + bp.len()) as int, a.text@, prepared(af@));
            }
        }
        if let Some(tf) = track {
            if tier == Tier::Tracks {
                lemma_score_at(c, (gate.len() + bp.len() + ap.len()) as int, t.text@, prepared(tf@));
            }
        }
    }
}

/// A free-text search scores each candidate of each tier (bands, albums,
/// tracks, in that order) by its own search text against the normalised query.
pub proof fn lemma_global_checks(bands: Seq<Band>, q: String, stages: Seq<Stage>)
    requires
        valid_plan(bands, SearchIntent::Global(q), stages),
    ensures
        stages.len() == 3,
        stages[0].tier == Tier::Bands && stages[1].tier == Tier::Albums && stages[2].tier == Tier::Tracks,
        forall|s: int, k: int|
            0 <= s < 3 && 0 <= k < stages[s].candidates@.len() ==> {
                let c = #[trigger] stages[s].candidates@[k];
                let text = if s == 0 {
                    bands[c.band as int].text@
                } else if s == 1 {
                    bands[c.band as int].albums@[c.album as int].text@
                } else {
                    bands[c.band as int].albums@[c.album as int].tracks@[c.track as int].text@
                };
                &&& c.band < bands.len()
                &&& c.checks@.len() == 1
                &&& c.checks@[0] matches Check::Score { text: t, query } && t@ == text && query@ == prepared(q@)
            },
{
    let f: FiltersView = (Some(prepared(q@)), None, None, None, None);
    assert forall|s: int, k: int| 0 <= s < 3 && 0 <= k < stages[s].candidates@.len() implies {
        let c = #[trigger] stages[s].candidates@[k];
        let text = if s == 0 {
            bands[c.band as int].text@
        } else if s == 1 {
            bands[c.band as int].albums@[c.album as int].text@
        } else {
            bands[c.band as int].albums@[c.album as int].tracks@[c.track as int].text@
        };
        &&& c.band < bands.len()
        &&& c.checks@.len() == 1
        &&& c.checks@[0] matches Check::Score { text: t, query } && t@ == text && query@ == prepared(q@)
    } by {
        let tier = if s == 0 {
            Tier::Bands
        } else if s == 1 {
            Tier::Albums
        } else {
            Tier::Tracks
        };
        lemma_stage_candidate_checks(bands, f, tier, stages[s], k);
        let c = stages[s].candidates@[k];
        let text = if s == 0 {
            bands[c.band as int].text@
        } else if s == 1 {
            bands[c.band as int].albums@[c.album as int].text@
        } else {
            bands[c.band as int].albums@[c.album as int].tracks@[c.track as int].text@
        };
        assert(c.checks@.map_values(|x: Check| check_view(x)).len() == 1);
        lemma_score_at(c, 0, text, prepared(q@));
    }
}

/// Eviction drops a track exactly when its file must be read again: when its
/// parent directory is one to rescan, or it or one of its ancestors is a
/// deleted directory. A track whose parent is not rescanned and none of
/// whose ancestors is deleted stays, whatever happens to its other
/// ancestors.
pub proof fn lemma_evict_by_parent(
    bs: Seq<BandModel>,
    deleted: Seq<Seq<char>>,
    updated: Seq<Seq<char>>,
    i: int,
    j: int,
    k: int,
)
    requires
        0 <= i < bs.len(),
        0 <= j < bs[i].albums.len(),
        0 <= k < bs[i].albums[j].tracks.len(),
    ensures
        ({
            let p = bs[i].albums[j].tracks[k].path;
            let parent_rescanned = path_parent(p) matches Some(q) && exists|m: int|
                0 <= m < updated.len() && paths_equal(q, #[trigger] updated[m]);
            let under_deleted = exists|a: int|
                0 <= a < path_ancestors(p).len() && deleted.contains(#[trigger] path_ancestors(p)[a]);
            track_paths(evict_bands(bs, deleted, updated)).contains(p) <==> !parent_rescanned && !under_deleted
        }),
{
    let p = bs[i].albums[j].tracks[k].path;
    lemma_evict_paths(bs, deleted, updated);
    assert(bs[i].albums[j].tracks[k].path == p);
    assert(track_paths(bs).contains(p));
    assert(obsolete_path(p, deleted, updated) == ((path_parent(p) matches Some(q) && exists|m: int|
        0 <= m < updated.len() && paths_equal(q, #[trigger] updated[m])) || exists|a: int|
        0 <= a < path_ancestors(p).len() && deleted.contains(#[trigger] path_ancestors(p)[a])));
}

/// A file is an audio file exactly when its extension, lower-cased, is mp3,
/// flac, wav, m4a, ogg or opus.
pub proof fn lemma_audio_extensions(p: Seq<char>)
    ensures
        is_audio_path(p) <==> (path_extension(p) matches Some(e) && {
            let l = lowercase(e);
            ||| l == "mp3"@
            ||| l == "flac"@
            ||| l == "wav"@
            ||| l == "m4a"@
            ||| l == "ogg"@
            ||| l == "opus"@
        }),
{
    let x = audio_extensions();
    assert(x[0] == "mp3"@ && x[1] == "flac"@ && x[2] == "wav"@ && x[3] == "m4a"@ && x[4] == "ogg"@ && x[5] == "opus"@);
    assert(x.len() == 6);
    if let Some(e) = path_extension(p) {
        let l = lowercase(e);
        if x.contains(l) {
            let n = choose|n: int| 0 <= n < x.len() && x[n] == l;
            assert(n == 0 || n == 1 || n == 2 || n == 3 || n == 4 || n == 5);
        }
        if l == "mp3"@ { assert(x[0] == l); }
        if l == "flac"@ { assert(x[1] == l); }
        if l == "wav"@ { assert(x[2] == l); }
        if l == "m4a"@ { assert(x[3] == l); }
        if l == "ogg"@ { assert(x[4] == l); }
        if l == "opus"@ { assert(x[5] == l); }
    }
}

/// Looking up a genre returns, in library order, exactly the bands having a
/// genre, at any position, equal to the query once both are lower-cased.
pub proof fn lemma_find_genre_any_position(bands: Seq<Band>, g: Seq<char>)
    ensures
        forall|i: int, k: int|
            0 <= i < bands.len() && 0 <= k < bands[i].genres@.len() && lowercase(
                #[trigger] bands[i].genres@[k]@,
            ) == lowercase(g) ==> genre_bands(bands, g).contains(bands[i]),
        forall|b: Band|
            #[trigger] genre_bands(bands, g).contains(b) ==> bands.contains(b) && exists|k: int|
                0 <= k < b.genres@.len() && lowercase(#[trigger] b.genres@[k]@) == lowercase(g),
{
    let p = |b: Band| has_genre(b, g);
    assert(genre_bands(bands, g) == bands.filter(p));
    assert forall|i: int, k: int|
        0 <= i < bands.len() && 0 <= k < bands[i].genres@.len() && lowercase(
            #[trigger] bands[i].genres@[k]@,
        ) == lowercase(g) implies bands.filter(p).contains(bands[i]) by {
        assert(has_genre(bands[i], g));
        bands.lemma_filter_contains(p, i);
    }
    assert forall|b: Band| #[trigger] bands.filter(p).contains(b) implies bands.contains(b) && exists|k: int|
        0 <= k < b.genres@.len() && lowercase(#[trigger] b.genres@[k]@) == lowercase(g) by {
        bands.lemma_filter_contains_rev(p, b);
        let n = choose|n: int| 0 <= n < bands.filter(p).len() && bands.filter(p)[n] == b;
        bands.lemma_filter_pred(p, n);
    }
}

/// An element of a piece is an element of the pieces joined.
pub proof fn lemma_flatten_contains<A>(ss: Seq<Seq<A>>, i: int, j: int)
    requires
        0 <= i < ss.len(),
        0 <= j < ss[i].len(),
    ensures
        ss.flatten().contains(ss[i][j]),
    decreases ss.len(),
{
    let rest = ss.drop_first();
    assert(ss.flatten() == ss[0] + rest.flatten());
    if i == 0 {
        assert(ss.flatten()[j] == ss[0][j]);
    } else {
        assert(rest[i - 1] == ss[i]);
        lemma_flatten_contains(rest, i - 1, j);
        let n = choose|n: int| 0 <= n < rest.flatten().len() && rest.flatten()[n] == ss[i][j];
        assert(ss.flatten()[ss[0].len() + n] == ss[i][j]);
    }
}

/// Looking up an album by name finds, across all bands, exactly the albums
/// whose search text is the normalised name: each album found has that
/// text, and every album of any band with that text is found.
pub proof fn lemma_find_album_by_name(bands: Seq<Band>, name: Seq<char>)
    ensures
        forall|k: int| 0 <= k < albums_named(bands, prepared(name)).len() ==> (#[trigger] albums_named(
            bands,
            prepared(name),
        )[k]).text@ == prepared(name),
        forall|i: int, j: int|
            0 <= i < bands.len() && 0 <= j < bands[i].albums@.len() && (#[trigger] bands[i].albums@[j]).text@
                == prepared(name) ==> albums_named(bands, prepared(name)).contains(bands[i].albums@[j]),
{
    let t = prepared(name);
    let ss = bands.map_values(|b: Band| band_albums_named(b, t));
    assert(albums_named(bands, t) == ss.flatten());
    let p = |a: super::album::Album| a.text@ == t;
    assert forall|i: int, j: int| 0 <= i < ss.len() && 0 <= j < ss[i].len() implies p(#[trigger] ss[i][j]) by {
        assert(ss[i] == bands[i].albums@.filter(album_named(t)));
        bands[i].albums@.lemma_filter_pred(album_named(t), j);
    }
    lemma_flatten_forall(ss, p);
    assert forall|i: int, j: int|
        0 <= i < bands.len() && 0 <= j < bands[i].albums@.len() && (#[trigger] bands[i].albums@[j]).text@ == t
        implies albums_named(bands, t).contains(bands[i].albums@[j]) by {
        let a = bands[i].albums@[j];
        assert(album_named(t)(a));
        bands[i].albums@.lemma_filter_contains(album_named(t), j);
        assert(ss[i] == bands[i].albums@.filter(album_named(t)));
        let n = choose|n: int| 0 <= n < ss[i].len() && ss[i][n] == a;
        lemma_flatten_contains(ss, i, n);
    }
}

/// What a rescan of the same root forgets and reads, given a listing that
/// names each directory once: it forgets exactly the directories cached but
/// no longer listed, and reads exactly those listed with a time the cache
/// does not hold for them (new or modified).
pub proof fn lemma_rescan_diff(old: Seq<DirStamp>, cur: Seq<DirStamp>)
    requires
        distinct_dirs(cur),
    ensures
        forall|d: Seq<char>| #[trigger] deleted_dirs(old, cur).contains(d) <==> has_dir(old, d) && !has_dir(cur, d),
        forall|k: int|
            0 <= k < cur.len() ==> (#[trigger] changed_dirs(old, cur).contains(cur[k].0) <==> !old.contains(cur[k])),
        forall|d: Seq<char>| #[trigger] changed_dirs(old, cur).contains(d) ==> has_dir(cur, d),
{
    let pd = |e: DirStamp| !has_dir(cur, e.0);
    let key = |e: DirStamp| e.0;
    let pc = |e: DirStamp| !old.contains(e);
    assert forall|d: Seq<char>| #[trigger] deleted_dirs(old, cur).contains(d) <==> has_dir(old, d) && !has_dir(cur, d) by {
        let fo = old.filter(pd);
        if deleted_dirs(old, cur).contains(d) {
            let n = choose|n: int| 0 <= n < fo.map_values(key).len() && fo.map_values(key)[n] == d;
            old.lemma_filter_pred(pd, n);
            assert(fo.contains(fo[n]));
            old.lemma_filter_contains_rev(pd, fo[n]);
            let m = choose|m: int| 0 <= m < old.len() && old[m] == fo[n];
            assert(old[m].0 == d);
        }
        if has_dir(old, d) && !has_dir(cur, d) {
            let m = choose|m: int| 0 <= m < old.len() && (#[trigger] old[m]).0 == d;
            old.lemma_filter_contains(pd, m);
            let n = choose|n: int| 0 <= n < fo.len() && fo[n] == old[m];
            assert(fo.map_values(key)[n] == d);
        }
    }
    let fc = cur.filter(pc);
    assert forall|d: Seq<char>| #[trigger] changed_dirs(old, cur).contains(d) implies has_dir(cur, d) && exists|m: int|
        0 <= m < cur.len() && cur[m].0 == d && !old.contains(cur[m]) by {
        let n = choose|n: int| 0 <= n < fc.map_values(key).len() && fc.map_values(key)[n] == d;
        cur.lemma_filter_pred(pc, n);
        assert(fc.contains(fc[n]));
        cur.lemma_filter_contains_rev(pc, fc[n]);
        let m = choose|m: int| 0 <= m < cur.len() && cur[m] == fc[n];
        assert(cur[m].0 == d);
    }
    assert forall|k: int| 0 <= k < cur.len() implies (#[trigger] changed_dirs(old, cur).contains(cur[k].0)
        <==> !old.contains(cur[k])) by {
        if !old.contains(cur[k]) {
            cur.lemma_filter_contains(pc, k);
            let n = choose|n: int| 0 <= n < fc.len() && fc[n] == cur[k];
            assert(fc.map_values(key)[n] == cur[k].0);
        }
        if changed_dirs(old, cur).contains(cur[k].0) {
            let m = choose|m: int| 0 <= m < cur.len() && cur[m].0 == cur[k].0 && !old.contains(cur[m]);
            if m != k {
                if m < k {
                    assert(cur[m].0 != cur[k].0);
                } else {
                    assert(cur[k].0 != cur[m].0);
                }
            }
        }
    }
}

} // verus!
