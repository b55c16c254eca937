//! Search plans: which candidates each tier of a search considers and which
//! comparisons decide them, and how ranked picks become a playback target.

use vstd::prelude::*;

use super::album::Album;
use super::band::Band;
use super::track::Track;
use super::{derefs, lemma_derefs_push, MusicIndexer, PlaybackTarget, SearchIntent};
use crate::text::{prepare_name, prepared, strings_view};

verus! {

/// The kind of item a search tier yields.
#[derive(Clone, Copy, Debug, PartialEq, Eq, Structural)]
pub enum Tier {
    Bands,
    Albums,
    Tracks,
}

/// One comparison that decides whether a candidate is kept and how it ranks.
#[derive(Clone, Debug, PartialEq, Eq)]
pub enum Check {
    /// `text` must be similar enough to `query`; the similarity joins the
    /// candidate's score.
    Score { text: String, query: String },
    /// At least one of `texts` must be similar enough to `query`; it does
    /// not join the score.
    Gate { texts: Vec<String>, query: String },
}

/// A candidate of a tier: its position in the library and its comparisons.
/// For bands only `band` is meaningful, for albums `band` and `album`.
#[derive(Clone, Debug, PartialEq, Eq)]
pub struct Candidate {
    pub band: usize,
    pub album: usize,
    pub track: usize,
    pub checks: Vec<Check>,
}

/// One tier of a search: the candidates, in library order.
#[derive(Clone, Debug, PartialEq, Eq)]
pub struct Stage {
    pub tier: Tier,
    pub candidates: Vec<Candidate>,
}

/// The normalised filters of a search.
pub struct Filters {
    pub query: Option<String>,
    pub band: Option<String>,
    pub album: Option<String>,
    pub track: Option<String>,
    pub genre: Option<String>,
}

/// A check as plain values: whether it is a gate, the texts compared, the query.
pub type CheckView = (bool, Seq<Seq<char>>, Seq<char>);

/// A position in the library: band, album and track indices.
pub type Pos = (int, int, int);

/// The filters as plain values: query, band, album, track, genre.
pub type FiltersView = (
    Option<Seq<char>>,
    Option<Seq<char>>,
    Option<Seq<char>>,
    Option<Seq<char>>,
    Option<Seq<char>>,
);

pub open spec fn check_view(c: Check) -> CheckView {
    match c {
        Check::Score { text, query } => (false, seq![text@], query@),
        Check::Gate { texts, query } => (true, strings_view(texts@), query@),
    }
}

pub open spec fn candidate_view(c: Candidate) -> (Pos, Seq<CheckView>) {
    (
        (c.band as int, c.album as int, c.track as int),
        c.checks@.map_values(|x: Check| check_view(x)),
    )
}

pub open spec fn stage_items(st: Stage) -> Seq<(Pos, Seq<CheckView>)> {
    st.candidates@.map_values(|c: Candidate| candidate_view(c))
}

pub open spec fn opt_view(o: Option<String>) -> Option<Seq<char>> {
    match o {
        Some(s) => Some(s@),
        None => None,
    }
}

pub open spec fn filters_view(f: Filters) -> FiltersView {
    (opt_view(f.query), opt_view(f.band), opt_view(f.album), opt_view(f.track), opt_view(f.genre))
}

/// A filter normalised with `prepared`.
pub open spec fn normalised(o: Option<String>) -> Option<Seq<char>> {
    match o {
        Some(s) => Some(prepared(s@)),
        None => None,
    }
}

/// A scoring comparison of `text` against `q`.
pub open spec fn score_check(text: Seq<char>, q: Seq<char>) -> CheckView {
    (false, seq![text], q)
}

/// A scoring comparison when the filter is given, none otherwise.
pub open spec fn opt_score(text: Seq<char>, f: Option<Seq<char>>) -> Seq<CheckView> {
    match f {
        Some(q) => seq![score_check(text, q)],
        None => Seq::empty(),
    }
}

/// The comparisons of the candidate at `p` in a tier of a search with filters `f`.
/// A free-text query compares the candidate's own search text; filters compare
/// the genres (as a gate), then the band, album and track texts, each when
/// given and when the tier reaches that level.
pub open spec fn expected_checks(bands: Seq<Band>, f: FiltersView, tier: Tier, p: Pos) -> Seq<CheckView> {
    let b = bands[p.0];
    let a = b.albums@[p.1];
    let t = a.tracks@[p.2];
    match f.0 {
        Some(q) => match tier {
            Tier::Bands => seq![score_check(b.text@, q)],
            Tier::Albums => seq![score_check(a.text@, q)],
            Tier::Tracks => seq![score_check(t.text@, q)],
        },
        None => {
            let gate: Seq<CheckView> = match f.4 {
                Some(g) => seq![(true, strings_view(b.genres@), g)],
                None => Seq::empty(),
            };
            let album_part: Seq<CheckView> = if tier == Tier::Bands {
                Seq::empty()
            } else {
                opt_score(a.text@, f.2)
            };
            let track_part: Seq<CheckView> = if tier == Tier::Tracks {
                opt_score(t.text@, f.3)
            } else {
                Seq::empty()
            };
            gate + opt_score(b.text@, f.1) + album_part + track_part
        },
    }
}

/// The candidates of one band for a tier, with their comparisons.
pub open spec fn band_items(bands: Seq<Band>, f: FiltersView, tier: Tier, i: int) -> Seq<(Pos, Seq<CheckView>)> {
    match tier {
        Tier::Bands => seq![((i, 0, 0), expected_checks(bands, f, tier, (i, 0, 0)))],
        Tier::Albums => Seq::new(
            bands[i].albums@.len(),
            |j: int| ((i, j, 0), expected_checks(bands, f, tier, (i, j, 0))),
        ),
        Tier::Tracks => Seq::new(
            bands[i].albums@.len(),
            |j: int|
                Seq::new(
                    bands[i].albums@[j].tracks@.len(),
                    |k: int| ((i, j, k), expected_checks(bands, f, tier, (i, j, k))),
                ),
        ).flatten(),
    }
}

/// All candidates of a tier, band by band, album by album, track by track.
pub open spec fn tier_items(bands: Seq<Band>, f: FiltersView, tier: Tier) -> Seq<(Pos, Seq<CheckView>)> {
    Seq::new(bands.len(), |i: int| band_items(bands, f, tier, i)).flatten()
}

/// The candidate's indices address an item of the tier's kind in the library.
pub open spec fn cand_in_range(bands: Seq<Band>, tier: Tier, c: Candidate) -> bool {
    &&& c.band < bands.len()
    &&& tier != Tier::Bands ==> c.album < bands[c.band as int].albums@.len()
    &&& tier == Tier::Tracks ==> c.track < bands[c.band as int].albums@[c.album as int].tracks@.len()
}

/// Every candidate of the stage addresses an item of the library.
pub open spec fn stage_in_range(bands: Seq<Band>, st: Stage) -> bool {
    forall|k: int| 0 <= k < st.candidates@.len() ==> cand_in_range(bands, st.tier, #[trigger] st.candidates@[k])
}

/// A stage is the given tier with exactly the expected candidates.
pub open spec fn stage_is(st: Stage, bands: Seq<Band>, f: FiltersView, tier: Tier) -> bool {
    &&& st.tier == tier
    &&& stage_items(st) == tier_items(bands, f, tier)
    &&& stage_in_range(bands, st)
}

/// The tier a filtered search looks at: bands when only the band filter is
/// given, albums when the album filter is given without track and genre,
/// tracks otherwise.
pub open spec fn targeted_tier(
    band: Option<Seq<char>>,
    album: Option<Seq<char>>,
    track: Option<Seq<char>>,
    genre: Option<Seq<char>>,
) -> Tier {
    if band is Some && album is None && track is None && genre is None {
        Tier::Bands
    } else if album is Some && track is None && genre is None {
        Tier::Albums
    } else {
        Tier::Tracks
    }
}

/// The stages of a search: for a free-text query bands, then albums, then
/// tracks; for filters the one tier they select.
pub open spec fn valid_plan(bands: Seq<Band>, intent: SearchIntent, stages: Seq<Stage>) -> bool {
    match intent {
        SearchIntent::Global(q) => {
            let f: FiltersView = (Some(prepared(q@)), None, None, None, None);
            &&& stages.len() == 3
            &&& stage_is(stages[0], bands, f, Tier::Bands)
            &&& stage_is(stages[1], bands, f, Tier::Albums)
            &&& stage_is(stages[2], bands, f, Tier::Tracks)
        },
        SearchIntent::Targeted { band, album, track, genre } => {
            let f: FiltersView = (
                None,
                normalised(band),
                normalised(album),
                normalised(track),
                normalised(genre),
            );
            &&& stages.len() == 1
            &&& stage_is(stages[0], bands, f, targeted_tier(f.1, f.2, f.3, f.4))
        },
    }
}


/// Flattening one more element of a sequence of sequences appends it.
pub proof fn lemma_flatten_prefix_step<Y>(s: Seq<Seq<Y>>, i: int)
    requires
        0 <= i < s.len(),
    ensures
        s.take(i + 1).flatten() == s.take(i).flatten() + s[i],
{
    assert(s.take(i + 1) =~= s.take(i).push(s[i]));
    s.take(i).lemma_flatten_push(s[i]);
}

/// A copy of a list of strings.
pub fn clone_strings(v: &Vec<String>) -> (r: Vec<String>)
    ensures
        strings_view(r@) == strings_view(v@),
{
    let mut r: Vec<String> = Vec::new();
    let mut i: usize = 0;
    while i < v.len()
        invariant
            i <= v.len(),
            strings_view(r@) == strings_view(v@).take(i as int),
        decreases v.len() - i,
    {
        let ghost prev = strings_view(r@);
        r.push(v[i].clone());
        assert(strings_view(r@) =~= prev.push(v@[i as int]@));
        assert(strings_view(v@).take(i + 1) =~= strings_view(v@).take(i as int).push(v@[i as int]@));
        i = i + 1;
    }
    assert(strings_view(v@).take(v.len() as int) =~= strings_view(v@));
    r
}

fn push_score(checks: &mut Vec<Check>, text: &String, query: &String)
    ensures
        final(checks)@.map_values(|x: Check| check_view(x)) == old(checks)@.map_values(
            |x: Check| check_view(x),
        ).push(score_check(text@, query@)),
{
    let c = Check::Score { text: text.clone(), query: query.clone() };
    checks.push(c);
    assert(final(checks)@.map_values(|x: Check| check_view(x)) =~= old(checks)@.map_values(
        |x: Check| check_view(x),
    ).push(score_check(text@, query@)));
}

/// The comparisons of the candidate at position `(i, j, k)`.
fn checks_for(bands: &Vec<Band>, f: &Filters, tier: Tier, i: usize, j: usize, k: usize) -> (r: Vec<Check>)
    requires
        i < bands.len(),
        tier != Tier::Bands ==> j < bands@[i as int].albums@.len(),
        tier == Tier::Tracks ==> k < bands@[i as int].albums@[j as int].tracks@.len(),
    ensures
        r@.map_values(|x: Check| check_view(x)) == expected_checks(
            bands@,
            filters_view(*f),
            tier,
            (i as int, j as int, k as int),
        ),
{
    let ghost fv = filters_view(*f);
    let ghost exp = expected_checks(bands@, fv, tier, (i as int, j as int, k as int));
    let band = &bands[i];
    let mut r: Vec<Check> = Vec::new();
    match &f.query {
        Some(q) => {
            match tier {
                Tier::Bands => push_score(&mut r, &band.text, q),
                Tier::Albums => push_score(&mut r, &band.albums[j].text, q),
                Tier::Tracks => push_score(&mut r, &band.albums[j].tracks[k].text, q),
            }
            assert(r@.map_values(|x: Check| check_view(x)) =~= exp);
        },
        None => {
            let ghost b = bands@[i as int];
            if let Some(g) = &f.genre {
                let c = Check::Gate { texts: clone_strings(&band.genres), query: g.clone() };
                r.push(c);
            }
            let ghost gate: Seq<CheckView> = match fv.4 {
                Some(g) => seq![(true, strings_view(b.genres@), g)],
                None => Seq::empty(),
            };
            assert(r@.map_values(|x: Check| check_view(x)) =~= gate);
            if let Some(q) = &f.band {
                push_score(&mut r, &band.text, q);
            }
            assert(r@.map_values(|x: Check| check_view(x)) =~= gate + opt_score(b.text@, fv.1));
            let ghost mid = gate + opt_score(b.text@, fv.1);
            if tier != Tier::Bands {
                if let Some(q) = &f.album {
                    push_score(&mut r, &band.albums[j].text, q);
                }
                assert(r@.map_values(|x: Check| check_view(x)) =~= mid + opt_score(
                    b.albums@[j as int].text@,
                    fv.2,
                ));
            } else {
                assert(r@.map_values(|x: Check| check_view(x)) =~= mid + Seq::<CheckView>::empty());
            }
            let ghost mid2 = r@.map_values(|x: Check| check_view(x));
            if tier == Tier::Tracks {
                if let Some(q) = &f.track {
                    push_score(&mut r, &band.albums[j].tracks[k].text, q);
                }
                assert(r@.map_values(|x: Check| check_view(x)) =~= mid2 + opt_score(
                    b.albums@[j as int].tracks@[k as int].text@,
                    fv.3,
                ));
            } else {
                assert(r@.map_values(|x: Check| check_view(x)) =~= mid2 + Seq::<CheckView>::empty());
            }
            assert(r@.map_values(|x: Check| check_view(x)) =~= exp);
        },
    }
    r
}

fn push_candidate(
    cands: &mut Vec<Candidate>,
    bands: &Vec<Band>,
    f: &Filters,
    tier: Tier,
    i: usize,
    j: usize,
    k: usize,
)
    requires
        i < bands.len(),
        tier != Tier::Bands ==> j < bands@[i as int].albums@.len(),
        tier == Tier::Tracks ==> k < bands@[i as int].albums@[j as int].tracks@.len(),
    ensures
        final(cands)@.map_values(|c: Candidate| candidate_view(c)) == old(cands)@.map_values(
            |c: Candidate| candidate_view(c),
        ).push(
            (
                (i as int, j as int, k as int),
                expected_checks(bands@, filters_view(*f), tier, (i as int, j as int, k as int)),
            ),
        ),
        final(cands)@.len() == old(cands)@.len() + 1,
        forall|m: int| 0 <= m < old(cands)@.len() ==> final(cands)@[m] == old(cands)@[m],
        cand_in_range(bands@, tier, final(cands)@.last()),
{
    let checks = checks_for(bands, f, tier, i, j, k);
    cands.push(Candidate { band: i, album: j, track: k, checks });
    assert(final(cands)@.map_values(|c: Candidate| candidate_view(c)) =~= old(cands)@.map_values(
        |c: Candidate| candidate_view(c),
    ).push(
        (
            (i as int, j as int, k as int),
            expected_checks(bands@, filters_view(*f), tier, (i as int, j as int, k as int)),
        ),
    ));
}

/// The candidates of one band for a tier appended to `cands`.
fn push_band_items(cands: &mut Vec<Candidate>, bands: &Vec<Band>, f: &Filters, tier: Tier, i: usize)
    requires
        i < bands.len(),
    ensures
        final(cands)@.map_values(|c: Candidate| candidate_view(c)) == old(cands)@.map_values(
            |c: Candidate| candidate_view(c),
        ) + band_items(bands@, filters_view(*f), tier, i as int),
        forall|m: int| 0 <= m < old(cands)@.len() ==> final(cands)@[m] == old(cands)@[m],
        forall|m: int|
            old(cands)@.len() <= m < final(cands)@.len() ==> cand_in_range(bands@, tier, #[trigger] final(cands)@[m]),
{
    let ghost fv = filters_view(*f);
    let ghost start = old(cands)@.map_values(|c: Candidate| candidate_view(c));
    match tier {
        Tier::Bands => {
            push_candidate(cands, bands, f, tier, i, 0, 0);
            assert(cands@.map_values(|c: Candidate| candidate_view(c)) =~= start + band_items(
                bands@,
                fv,
                tier,
                i as int,
            ));
        },
        Tier::Albums => {
            let band = &bands[i];
            let ghost items = band_items(bands@, fv, tier, i as int);
            let mut j: usize = 0;
            while j < band.albums.len()
                invariant
                    i < bands.len(),
                    band == &bands@[i as int],
                    tier == Tier::Albums,
                    fv == filters_view(*f),
                    items == band_items(bands@, fv, tier, i as int),
                    j <= band.albums.len(),
                    cands@.map_values(|c: Candidate| candidate_view(c)) == start + items.take(j as int),
                    cands@.len() >= old(cands)@.len(),
                    forall|m: int| 0 <= m < old(cands)@.len() ==> cands@[m] == old(cands)@[m],
                    forall|m: int|
                        old(cands)@.len() <= m < cands@.len() ==> cand_in_range(bands@, tier, #[trigger] cands@[m]),
                decreases band.albums.len() - j,
            {
                push_candidate(cands, bands, f, tier, i, j, 0);
                assert(items.take(j + 1) =~= items.take(j as int).push(items[j as int]));
                assert(cands@.map_values(|c: Candidate| candidate_view(c)) =~= start + items.take(
                    j + 1,
                ));
                j = j + 1;
            }
            assert(items.take(band.albums.len() as int) =~= items);
        },
        Tier::Tracks => {
            let band = &bands[i];
            let ghost outer = Seq::new(
                bands@[i as int].albums@.len(),
                |j: int|
                    Seq::new(
                        bands@[i as int].albums@[j].tracks@.len(),
                        |k: int| ((i as int, j, k), expected_checks(bands@, fv, tier, (i as int, j, k))),
                    ),
            );
            assert(band_items(bands@, fv, tier, i as int) == outer.flatten());
            let mut j: usize = 0;
            while j < band.albums.len()
                invariant
                    i < bands.len(),
                    band == &bands@[i as int],
                    tier == Tier::Tracks,
                    fv == filters_view(*f),
                    outer.len() == band.albums.len(),
                    outer == Seq::new(
                        bands@[i as int].albums@.len(),
                        |j: int|
                            Seq::new(
                                bands@[i as int].albums@[j].tracks@.len(),
                                |k: int| ((i as int, j, k), expected_checks(bands@, fv, tier, (i as int, j, k))),
                            ),
                    ),
                    j <= band.albums.len(),
                    cands@.map_values(|c: Candidate| candidate_view(c)) == start + outer.take(
                        j as int,
                    ).flatten(),
                    cands@.len() >= old(cands)@.len(),
                    forall|m: int| 0 <= m < old(cands)@.len() ==> cands@[m] == old(cands)@[m],
                    forall|m: int|
                        old(cands)@.len() <= m < cands@.len() ==> cand_in_range(bands@, tier, #[trigger] cands@[m]),
                decreases band.albums.len() - j,
            {
                let album = &band.albums[j];
                let ghost inner = outer[j as int];
                let ghost before = cands@.map_values(|c: Candidate| candidate_view(c));
                let mut k: usize = 0;
                while k < album.tracks.len()
                    invariant
                        i < bands.len(),
                        j < band.albums.len(),
                        band == &bands@[i as int],
                        album == &band.albums@[j as int],
                        tier == Tier::Tracks,
                        fv == filters_view(*f),
                        inner.len() == album.tracks.len(),
                        inner == Seq::new(
                            bands@[i as int].albums@[j as int].tracks@.len(),
                            |k: int|
                                ((i as int, j as int, k), expected_checks(bands@, fv, tier, (i as int, j as int, k))),
                        ),
                        k <= album.tracks.len(),
                        cands@.map_values(|c: Candidate| candidate_view(c)) == before + inner.take(
                            k as int,
                        ),
                        cands@.len() >= old(cands)@.len(),
                        forall|m: int| 0 <= m < old(cands)@.len() ==> cands@[m] == old(cands)@[m],
                        forall|m: int|
                            old(cands)@.len() <= m < cands@.len() ==> cand_in_range(bands@, tier, #[trigger] cands@[m]),
                    decreases album.tracks.len() - k,
                {
                    push_candidate(cands, bands, f, tier, i, j, k);
                    assert(inner.take(k + 1) =~= inner.take(k as int).push(inner[k as int]));
                    assert(cands@.map_values(|c: Candidate| candidate_view(c)) =~= before + inner.take(
                        k + 1,
                    ));
                    k = k + 1;
                }
                assert(inner.take(album.tracks.len() as int) =~= inner);
                proof {
                    lemma_flatten_prefix_step(outer, j as int);
                }
                assert(cands@.map_values(|c: Candidate| candidate_view(c)) =~= start + outer.take(
                    j + 1,
                ).flatten());
                j = j + 1;
            }
            assert(outer.take(band.albums.len() as int) =~= outer);
        },
    }
}

/// The stage of a tier: every candidate of the tier with its comparisons.
fn build_stage(bands: &Vec<Band>, f: &Filters, tier: Tier) -> (st: Stage)
    ensures
        stage_is(st, bands@, filters_view(*f), tier),
{
    let ghost fv = filters_view(*f);
    let ghost all = Seq::new(bands@.len(), |i: int| band_items(bands@, fv, tier, i));
    let mut cands: Vec<Candidate> = Vec::new();
    let mut i: usize = 0;
    while i < bands.len()
        invariant
            i <= bands.len(),
            fv == filters_view(*f),
            all == Seq::new(bands@.len(), |i: int| band_items(bands@, fv, tier, i)),
            cands@.map_values(|c: Candidate| candidate_view(c)) == all.take(i as int).flatten(),
            forall|m: int| 0 <= m < cands@.len() ==> cand_in_range(bands@, tier, #[trigger] cands@[m]),
        decreases bands.len() - i,
    {
        push_band_items(&mut cands, bands, f, tier, i);
        proof {
            lemma_flatten_prefix_step(all, i as int);
        }
        i = i + 1;
    }
    assert(all.take(bands.len() as int) =~= all);
    let st = Stage { tier, candidates: cands };
    assert(stage_items(st) == tier_items(bands@, fv, tier));
    assert(stage_in_range(bands@, st));
    st
}

fn normalise(o: &Option<String>) -> (r: Option<String>)
    ensures
        opt_view(r) == normalised(*o),
{
    match o {
        Some(s) => Some(prepare_name(s.as_str())),
        None => None,
    }
}

/// The picks that address a candidate of the stage, in the order given.
pub open spec fn kept(st: Stage, picks: Seq<usize>) -> Seq<usize> {
    picks.filter(|p: usize| (p as int) < st.candidates@.len())
}

/// The bands of the picked candidates.
pub open spec fn picked_bands(bands: Seq<Band>, st: Stage, ks: Seq<usize>) -> Seq<Band> {
    ks.map_values(|p: usize| bands[st.candidates@[p as int].band as int])
}

/// The albums of the picked candidates.
pub open spec fn picked_albums(bands: Seq<Band>, st: Stage, ks: Seq<usize>) -> Seq<Album> {
    ks.map_values(
        |p: usize|
            bands[st.candidates@[p as int].band as int].albums@[st.candidates@[p as int].album as int],
    )
}

/// The tracks of the picked candidates.
pub open spec fn picked_tracks(bands: Seq<Band>, st: Stage, ks: Seq<usize>) -> Seq<Track> {
    ks.map_values(
        |p: usize|
            bands[st.candidates@[p as int].band as int].albums@[st.candidates@[p as int].album as int].tracks@[st.candidates@[p as int].track as int],
    )
}

/// The target holds the items of the stage's tier picked by `picks`.
pub open spec fn target_for(bands: Seq<Band>, st: Stage, picks: Seq<usize>, r: PlaybackTarget) -> bool {
    let ks = kept(st, picks);
    match st.tier {
        Tier::Bands => r matches PlaybackTarget::Band(v) && derefs(v@) == picked_bands(bands, st, ks),
        Tier::Albums => r matches PlaybackTarget::Album(v) && derefs(v@) == picked_albums(
            bands,
            st,
            ks,
        ),
        Tier::Tracks => r matches PlaybackTarget::Tracks(v) && derefs(v@) == picked_tracks(
            bands,
            st,
            ks,
        ),
    }
}

/// How a search went: the stages of its plan, the picks the ranking gave for
/// each stage it tried, every stage before the last one tried yielded
/// nothing, and the result is what the last one yielded, or nothing when
/// every stage yielded nothing.
pub open spec fn search_outcome<F: Fn(&Stage) -> Vec<usize>>(
    bands: Seq<Band>,
    intent: SearchIntent,
    rank: F,
    stages: Seq<Stage>,
    outs: Seq<Vec<usize>>,
    r: PlaybackTarget,
) -> bool {
    &&& valid_plan(bands, intent, stages)
    &&& 1 <= outs.len() <= stages.len()
    &&& forall|j: int| 0 <= j < outs.len() ==> call_ensures(rank, (&stages[j],), #[trigger] outs[j])
    &&& forall|j: int| 0 <= j < outs.len() - 1 ==> kept(stages[j], (#[trigger] outs[j])@).len() == 0
    &&& if kept(stages[outs.len() - 1], outs.last()@).len() > 0 {
        target_for(bands, stages[outs.len() - 1], outs.last()@, r)
    } else {
        outs.len() == stages.len() && r is Nothing
    }
}

impl MusicIndexer {
    /// The items of the stage's tier addressed by the picks that are in
    /// range, in the order of the picks; nothing when no pick is in range.
    pub fn pick_target(&self, st: &Stage, picks: &Vec<usize>) -> (r: Option<PlaybackTarget<'_>>)
        requires
            stage_in_range(self.cache.bands@, *st),
        ensures
            kept(*st, picks@).len() == 0 ==> r is None,
            kept(*st, picks@).len() > 0 ==> (r matches Some(t) && target_for(
                self.cache.bands@,
                *st,
                picks@,
                t,
            )),
    {
        let bands = &self.cache.bands;
        let ghost pred = |p: usize| (p as int) < st.candidates@.len();
        let mut vb: Vec<&Band> = Vec::new();
        let mut va: Vec<&Album> = Vec::new();
        let mut vt: Vec<&Track> = Vec::new();
        let mut n: usize = 0;
        let mut i: usize = 0;
        while i < picks.len()
            invariant
                i <= picks.len(),
                bands == &self.cache.bands,
                stage_in_range(bands@, *st),
                pred == (|p: usize| (p as int) < st.candidates@.len()),
                n as int == picks@.take(i as int).filter(pred).len(),
                st.tier == Tier::Bands ==> derefs(vb@) == picked_bands(bands@, *st, picks@.take(i as int).filter(pred)),
                st.tier == Tier::Albums ==> derefs(va@) == picked_albums(bands@, *st, picks@.take(i as int).filter(pred)),
                st.tier == Tier::Tracks ==> derefs(vt@) == picked_tracks(bands@, *st, picks@.take(i as int).filter(pred)),
            decreases picks.len() - i,
        {
            let p = picks[i];
            let ghost ks = picks@.take(i as int).filter(pred);
            proof {
                super::lemma_filter_take_step(picks@, pred, i as int);
            }
            if p < st.candidates.len() {
                let c = &st.candidates[p];
                assert(cand_in_range(bands@, st.tier, st.candidates@[p as int]));
                match st.tier {
                    Tier::Bands => {
                        let ghost prev = vb@;
                        vb.push(&bands[c.band]);
                        proof {
                            lemma_derefs_push(prev, &bands@[c.band as int]);
                        }
                        assert(picked_bands(bands@, *st, ks.push(p)) =~= picked_bands(bands@, *st, ks).push(
                            bands@[c.band as int],
                        ));
                    },
                    Tier::Albums => {
                        let ghost prev = va@;
                        va.push(&bands[c.band].albums[c.album]);
                        proof {
                            lemma_derefs_push(prev, &bands@[c.band as int].albums@[c.album as int]);
                        }
                        assert(picked_albums(bands@, *st, ks.push(p)) =~= picked_albums(bands@, *st, ks).push(
                            bands@[c.band as int].albums@[c.album as int],
                        ));
                    },
                    Tier::Tracks => {
                        let ghost prev = vt@;
                        vt.push(&bands[c.band].albums[c.album].tracks[c.track]);
                        proof {
                            lemma_derefs_push(
                                prev,
                                &bands@[c.band as int].albums@[c.album as int].tracks@[c.track as int],
                            );
                        }
                        assert(picked_tracks(bands@, *st, ks.push(p)) =~= picked_tracks(bands@, *st, ks).push(
                            bands@[c.band as int].albums@[c.album as int].tracks@[c.track as int],
                        ));
                    },
                }
                n = n + 1;
            }
            i = i + 1;
        }
        assert(picks@.take(picks.len() as int) =~= picks@);
        if n == 0 {
            return None;
        }
        match st.tier {
            Tier::Bands => Some(PlaybackTarget::Band(vb)),
            Tier::Albums => Some(PlaybackTarget::Album(va)),
            Tier::Tracks => Some(PlaybackTarget::Tracks(vt)),
        }
    }

    /// Runs a search. `rank` decides each stage: it returns the positions of
    /// the candidates to keep, best first. The stages are tried in order and
    /// the first one for which `rank` keeps something gives the result; when
    /// none does, the result is `Nothing`.
    pub fn search<F: Fn(&Stage) -> Vec<usize>>(&self, intent: SearchIntent, rank: F) -> (r: PlaybackTarget<'_>)
        requires
            forall|st: &Stage| call_requires(rank, (st,)),
        ensures
            exists|stages: Seq<Stage>, outs: Seq<Vec<usize>>|
                search_outcome(self.cache.bands@, intent, rank, stages, outs, r),
    {
        let stages = self.search_stages(&intent);
        let ghost mut outs: Seq<Vec<usize>> = Seq::empty();
        let mut j: usize = 0;
        while j < stages.len()
            invariant
                j <= stages.len(),
                valid_plan(self.cache.bands@, intent, stages@),
                forall|st: &Stage| call_requires(rank, (st,)),
                outs.len() == j,
                forall|m: int| 0 <= m < j ==> call_ensures(rank, (&stages@[m],), #[trigger] outs[m]),
                forall|m: int| 0 <= m < j ==> kept(stages@[m], (#[trigger] outs[m])@).len() == 0,
            decreases stages.len() - j,
        {
            let picks = rank(&stages[j]);
            proof {
                outs = outs.push(picks);
            }
            assert(stage_in_range(self.cache.bands@, stages@[j as int]));
            match self.pick_target(&stages[j], &picks) {
                Some(t) => {
                    assert(search_outcome(self.cache.bands@, intent, rank, stages@, outs, t));
                    return t;
                },
                None => {},
            }
            j = j + 1;
        }
        let r = PlaybackTarget::Nothing;
        assert(search_outcome(self.cache.bands@, intent, rank, stages@, outs, r));
        r
    }

    /// The stages a search goes through: for a free-text query the bands,
    /// then the albums, then the tracks; for filters the one tier they select.
    pub fn search_stages(&self, intent: &SearchIntent) -> (r: Vec<Stage>)
        ensures
            valid_plan(self.cache.bands@, *intent, r@),
            forall|k: int| 0 <= k < r@.len() ==> stage_in_range(self.cache.bands@, #[trigger] r@[k]),
    {
        let bands = &self.cache.bands;
        let mut stages: Vec<Stage> = Vec::new();
        match intent {
            SearchIntent::Global(q) => {
                let f = Filters {
                    query: Some(prepare_name(q.as_str())),
                    band: None,
                    album: None,
                    track: None,
                    genre: None,
                };
                stages.push(build_stage(bands, &f, Tier::Bands));
                stages.push(build_stage(bands, &f, Tier::Albums));
                stages.push(build_stage(bands, &f, Tier::Tracks));
            },
            SearchIntent::Targeted { band, album, track, genre } => {
                let f = Filters {
                    query: None,
                    band: normalise(band),
                    album: normalise(album),
                    track: normalise(track),
                    genre: normalise(genre),
                };
                let tier = if f.band.is_some() && f.album.is_none() && f.track.is_none()
                    && f.genre.is_none() {
                    Tier::Bands
                } else if f.album.is_some() && f.track.is_none() && f.genre.is_none() {
                    Tier::Albums
                } else {
                    Tier::Tracks
                };
                stages.push(build_stage(bands, &f, tier));
            },
        }
        stages
    }
}

} // verus!
