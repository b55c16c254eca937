use music_index::{
    Album, Band, Check, MusicCache, MusicIndexer, PlaybackTarget, SearchIntent, Stage, Tier, Track,
};

fn track(name: &str, path: &str) -> Track {
    Track {
        band: String::new(),
        name: name.to_string(),
        text: music_index::text::prepare_name(name),
        path: path.to_string(),
    }
}

fn library() -> MusicIndexer {
    let b1 = Band {
        dir: "/m/Nirvana".to_string(),
        name: "Nirvana".to_string(),
        text: "nirvana".to_string(),
        genres: vec!["grunge".to_string()],
        albums: vec![
            Album {
                name: "Unplugged".to_string(),
                text: "unplugged".to_string(),
                tracks: vec![track("Polly", "/m/a"), track("Dumb", "/m/b")],
            },
            Album { name: "Bleach".to_string(), text: "bleach".to_string(), tracks: vec![track("Negative Creep", "/m/c")] },
        ],
    };
    let b2 = Band {
        dir: "/m/Metallica".to_string(),
        name: "Metallica".to_string(),
        text: "metallica".to_string(),
        genres: vec!["metal".to_string()],
        albums: vec![Album {
            name: "Load".to_string(),
            text: "load".to_string(),
            tracks: vec![track("Ronnie", "/m/d")],
        }],
    };
    MusicIndexer { cache: MusicCache { root_path: None, dirs: vec![], bands: vec![b1, b2] } }
}

fn score(text: &str, query: &str) -> Check {
    Check::Score { text: text.to_string(), query: query.to_string() }
}

fn positions(st: &Stage) -> Vec<(usize, usize, usize)> {
    st.candidates.iter().map(|c| (c.band, c.album, c.track)).collect()
}

#[test]
fn global_search_goes_bands_albums_tracks() {
    let idx = library();
    let stages = idx.search_stages(&SearchIntent::Global("  METALLICA!".to_string()));
    assert_eq!(stages.len(), 3);
    assert_eq!(stages[0].tier, Tier::Bands);
    assert_eq!(positions(&stages[0]), vec![(0, 0, 0), (1, 0, 0)]);
    assert_eq!(stages[0].candidates[1].checks, vec![score("metallica", "metallica")]);
    assert_eq!(stages[1].tier, Tier::Albums);
    assert_eq!(positions(&stages[1]), vec![(0, 0, 0), (0, 1, 0), (1, 0, 0)]);
    assert_eq!(stages[1].candidates[1].checks, vec![score("bleach", "metallica")]);
    assert_eq!(stages[2].tier, Tier::Tracks);
    assert_eq!(positions(&stages[2]), vec![(0, 0, 0), (0, 0, 1), (0, 1, 0), (1, 0, 0)]);
    assert_eq!(stages[2].candidates[2].checks, vec![score("negative creep", "metallica")]);
}

#[test]
fn band_filter_alone_searches_bands() {
    let idx = library();
    let intent = SearchIntent::Targeted { band: Some("Nirvana".to_string()), album: None, track: None, genre: None };
    let stages = idx.search_stages(&intent);
    assert_eq!(stages.len(), 1);
    assert_eq!(stages[0].tier, Tier::Bands);
    assert_eq!(stages[0].candidates[0].checks, vec![score("nirvana", "nirvana")]);
}

#[test]
fn album_filter_searches_albums_with_band_filter() {
    let idx = library();
    let intent = SearchIntent::Targeted {
        band: Some("nirvana".to_string()),
        album: Some("Un-Plugged".to_string()),
        track: None,
        genre: None,
    };
    let stages = idx.search_stages(&intent);
    assert_eq!(stages.len(), 1);
    assert_eq!(stages[0].tier, Tier::Albums);
    assert_eq!(positions(&stages[0]), vec![(0, 0, 0), (0, 1, 0), (1, 0, 0)]);
    assert_eq!(
        stages[0].candidates[2].checks,
        vec![score("metallica", "nirvana"), score("load", "un plugged")]
    );
}

#[test]
fn genre_filter_searches_tracks_with_a_gate() {
    let idx = library();
    let intent = SearchIntent::Targeted {
        band: None,
        album: Some("Load".to_string()),
        track: Some("ronnie".to_string()),
        genre: Some("METAL".to_string()),
    };
    let stages = idx.search_stages(&intent);
    assert_eq!(stages[0].tier, Tier::Tracks);
    assert_eq!(stages[0].candidates.len(), 4);
    assert_eq!(
        stages[0].candidates[3].checks,
        vec![
            Check::Gate { texts: vec!["metal".to_string()], query: "metal".to_string() },
            score("load", "load"),
            score("ronnie", "ronnie"),
        ]
    );
}

#[test]
fn no_filters_lists_every_track_without_checks() {
    let idx = library();
    let intent = SearchIntent::Targeted { band: None, album: None, track: None, genre: None };
    let stages = idx.search_stages(&intent);
    assert_eq!(stages[0].tier, Tier::Tracks);
    assert_eq!(stages[0].candidates.len(), 4);
    assert!(stages[0].candidates.iter().all(|c| c.checks.is_empty()));
}

fn exact(st: &Stage) -> Vec<usize> {
    let mut out = vec![];
    for (i, c) in st.candidates.iter().enumerate() {
        let ok = c.checks.iter().all(|ch| match ch {
            Check::Score { text, query } => text == query,
            Check::Gate { texts, query } => texts.iter().any(|t| t == query),
        });
        if ok {
            out.push(i);
        }
    }
    out.reverse();
    out
}

#[test]
fn global_search_stops_at_the_first_tier_that_yields() {
    let idx = library();
    match idx.search(SearchIntent::Global("Metallica".to_string()), exact) {
        PlaybackTarget::Band(bs) => assert_eq!(bs.iter().map(|b| b.name.clone()).collect::<Vec<_>>(), vec!["Metallica"]),
        _ => panic!("expected bands"),
    }
    match idx.search(SearchIntent::Global("bleach".to_string()), exact) {
        PlaybackTarget::Album(a) => assert_eq!(a[0].name, "Bleach"),
        _ => panic!("expected albums"),
    }
    match idx.search(SearchIntent::Global("Dumb".to_string()), exact) {
        PlaybackTarget::Tracks(t) => assert_eq!(t[0].name, "Dumb"),
        _ => panic!("expected tracks"),
    }
    assert!(matches!(idx.search(SearchIntent::Global("zzz".to_string()), exact), PlaybackTarget::Nothing));
}

#[test]
fn search_keeps_the_order_of_the_picks_and_drops_out_of_range_ones() {
    let idx = library();
    let intent = SearchIntent::Targeted { band: None, album: None, track: None, genre: None };
    match idx.search(intent.clone(), |_s: &Stage| vec![3, 99, 0]) {
        PlaybackTarget::Tracks(t) => {
            assert_eq!(t.iter().map(|x| x.name.clone()).collect::<Vec<_>>(), vec!["Ronnie", "Polly"])
        }
        _ => panic!("expected tracks"),
    }
    assert!(matches!(idx.search(intent, |_s: &Stage| vec![42]), PlaybackTarget::Nothing));
}

#[test]
fn targeted_genre_search_with_exact_ranking() {
    let idx = library();
    let intent = SearchIntent::Targeted { band: None, album: None, track: None, genre: Some("grunge".to_string()) };
    match idx.search(intent, exact) {
        PlaybackTarget::Tracks(t) => assert_eq!(
            t.iter().map(|x| x.name.clone()).collect::<Vec<_>>(),
            vec!["Negative Creep", "Dumb", "Polly"]
        ),
        _ => panic!("expected tracks"),
    }
}

#[test]
fn pick_target_builds_items_of_the_tier() {
    let idx = library();
    let stages = idx.search_stages(&SearchIntent::Global("x".to_string()));
    match idx.pick_target(&stages[1], &vec![2, 0]) {
        Some(PlaybackTarget::Album(a)) => {
            assert_eq!(a.iter().map(|x| x.name.clone()).collect::<Vec<_>>(), vec!["Load", "Unplugged"])
        }
        _ => panic!("expected albums"),
    }
    assert!(idx.pick_target(&stages[0], &vec![]).is_none());
}

fn keep_all(st: &Stage) -> Vec<usize> {
    (0..st.candidates.len()).collect()
}

fn target_names(t: &PlaybackTarget) -> Vec<String> {
    match t {
        PlaybackTarget::Band(v) => v.iter().map(|b| b.name.clone()).collect(),
        PlaybackTarget::Album(v) => v.iter().map(|a| a.name.clone()).collect(),
        PlaybackTarget::Tracks(v) => v.iter().map(|x| x.name.clone()).collect(),
        PlaybackTarget::Nothing => vec![],
    }
}

#[test]
fn a_query_and_its_normalised_form_search_alike() {
    let idx = library();
    let raw = SearchIntent::Targeted { band: Some("NIRVANA!".to_string()), album: Some(" Bleach ".to_string()), track: None, genre: None };
    let norm = SearchIntent::Targeted { band: Some("nirvana".to_string()), album: Some("bleach".to_string()), track: None, genre: None };
    assert_eq!(idx.search_stages(&raw), idx.search_stages(&norm));
    let a = idx.search(raw, keep_all);
    let b = idx.search(norm, keep_all);
    assert_eq!(target_names(&a), target_names(&b));
    assert_eq!(idx.search_stages(&SearchIntent::Global("Dumb?".to_string())), idx.search_stages(&SearchIntent::Global("dumb".to_string())));
}
