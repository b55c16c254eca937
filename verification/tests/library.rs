use music_index::{Album, Band, MusicCache, MusicIndexer, PlaybackTarget, Track};

fn track(band: &str, name: &str, path: &str) -> Track {
    Track {
        band: band.to_string(),
        name: name.to_string(),
        text: music_index::text::prepare_name(name),
        path: path.to_string(),
    }
}

fn album(name: &str, tracks: Vec<Track>) -> Album {
    Album { name: name.to_string(), text: music_index::text::prepare_name(name), tracks }
}

fn band(name: &str, genres: &[&str], albums: Vec<Album>) -> Band {
    Band {
        dir: format!("/music/{}", name),
        name: name.to_string(),
        text: music_index::text::prepare_name(name),
        genres: genres.iter().map(|g| g.to_string()).collect(),
        albums,
    }
}

fn library() -> MusicIndexer {
    let nirvana = band(
        "Nirvana",
        &["grunge", "Rock"],
        vec![
            album(
                "MTV Unplugged",
                vec![
                    track("Nirvana", "About a Girl", "/music/Nirvana/MTV Unplugged/01.mp3"),
                    track("Nirvana", "Come as You Are", "/music/Nirvana/MTV Unplugged/02.mp3"),
                ],
            ),
            album(
                "Nevermind",
                vec![track("Nirvana", "Lithium", "/music/Nirvana/Nevermind/05.mp3")],
            ),
        ],
    );
    let metallica = band(
        "Metallica",
        &["metal"],
        vec![album(
            "Master of Puppets",
            vec![
                track("Metallica", "Battery", "/music/Metallica/Master of Puppets/01.flac"),
                track("Metallica", "Orion", "/music/Metallica/Master of Puppets/07.flac"),
            ],
        )],
    );
    MusicIndexer { cache: MusicCache { root_path: Some("/music".to_string()), dirs: vec![], bands: vec![nirvana, metallica] } }
}

fn names(ts: &[&Track]) -> Vec<String> {
    ts.iter().map(|t| t.name.clone()).collect()
}

#[test]
fn find_matches_all_words_in_band_album_and_track() {
    let idx = library();
    assert_eq!(names(&idx.find("nirvana UNPLUGGED")), vec!["About a Girl", "Come as You Are"]);
    assert_eq!(names(&idx.find("puppets orion")), vec!["Orion"]);
    assert_eq!(names(&idx.find("lith")), vec!["Lithium"]);
}

#[test]
fn find_with_empty_query_finds_nothing() {
    let idx = library();
    assert!(idx.find("").is_empty());
    assert!(idx.find("   \t").is_empty());
}

#[test]
fn find_with_unknown_word_finds_nothing() {
    let idx = library();
    assert!(idx.find("nirvana battery").is_empty());
}

#[test]
fn find_genre_compares_lower_cased() {
    let idx = library();
    let found: Vec<String> = idx.find_genre("ROCK").iter().map(|b| b.name.clone()).collect();
    assert_eq!(found, vec!["Nirvana"]);
    let found: Vec<String> = idx.find_genre("Metal").iter().map(|b| b.name.clone()).collect();
    assert_eq!(found, vec!["Metallica"]);
    assert!(idx.find_genre("jazz").is_empty());
}

#[test]
fn find_band_normalises_the_name() {
    let idx = library();
    assert_eq!(idx.find_band("  METALLICA!! ").map(|b| b.name.clone()), Some("Metallica".to_string()));
    assert!(idx.find_band("Metal").is_none());
}

#[test]
fn find_band_by_its_own_name_or_text() {
    let idx = library();
    for b in &idx.cache.bands {
        assert_eq!(idx.find_band(&b.name).map(|x| x.text.clone()), Some(b.text.clone()));
        assert_eq!(idx.find_band(&b.text).map(|x| x.text.clone()), Some(b.text.clone()));
    }
}

#[test]
fn find_album_searches_by_album_name() {
    let idx = library();
    let albums: Vec<String> = idx.find_album("mtv-UNPLUGGED!").iter().map(|a| a.name.clone()).collect();
    assert_eq!(albums, vec!["MTV Unplugged"]);
    let puppets: Vec<String> = idx.find_album("Master of Puppets").iter().map(|a| a.text.clone()).collect();
    assert_eq!(puppets, vec!["master of puppets"]);
    assert!(idx.find_album("nirvana").is_empty());
    assert!(idx.find_album("queen").is_empty());
}

#[test]
fn find_album_gathers_albums_of_every_band() {
    let mut idx = library();
    let other = band("Foo", &["pop"], vec![album("Nevermind", vec![track("Foo", "x", "/music/Foo/Nevermind/x.mp3")])]);
    idx.cache.bands.push(other);
    let bands: Vec<String> = idx.find_album("nevermind").iter().map(|a| a.tracks[0].band.clone()).collect();
    assert_eq!(bands, vec!["Nirvana", "Foo"]);
}

#[test]
fn find_track_by_band_and_album() {
    let idx = library();
    assert_eq!(names(&idx.find_track("Nirvana", Some("mtv-unplugged"))), vec!["About a Girl", "Come as You Are"]);
    assert_eq!(names(&idx.find_track("Nirvana", None)), vec!["About a Girl", "Come as You Are", "Lithium"]);
    assert!(idx.find_track("Nirvana", Some("In Utero")).is_empty());
    assert!(idx.find_track("Queen", None).is_empty());
}

#[test]
fn tracks_of_each_target_kind() {
    let idx = library();
    let bands = &idx.cache.bands;
    assert!(PlaybackTarget::Nothing.tracks().is_empty());
    let t = PlaybackTarget::Tracks(vec![&bands[1].albums[0].tracks[1], &bands[0].albums[1].tracks[0]]);
    assert_eq!(names(&t.tracks()), vec!["Orion", "Lithium"]);
    let a = PlaybackTarget::Album(vec![&bands[0].albums[1], &bands[1].albums[0]]);
    assert_eq!(names(&a.tracks()), vec!["Lithium", "Battery", "Orion"]);
    let b = PlaybackTarget::Band(vec![&bands[1], &bands[0]]);
    assert_eq!(
        names(&b.tracks()),
        vec!["Battery", "Orion", "About a Girl", "Come as You Are", "Lithium"]
    );
    assert_eq!(names(&b.clone().into_tracks()), names(&b.tracks()));
    assert_eq!(names(&a.into_tracks()), vec!["Lithium", "Battery", "Orion"]);
}

fn paths(ts: &[&Track]) -> Vec<String> {
    ts.iter().map(|t| t.path.clone()).collect()
}

#[test]
fn find_ignores_the_order_of_words() {
    let idx = library();
    assert_eq!(paths(&idx.find("nirvana girl")), paths(&idx.find("girl nirvana")));
    assert_eq!(names(&idx.find("girl nirvana")), vec!["About a Girl"]);
}

#[test]
fn find_with_an_added_word_keeps_only_matching_tracks() {
    let idx = library();
    assert_eq!(names(&idx.find("nirvana")), vec!["About a Girl", "Come as You Are", "Lithium"]);
    assert_eq!(names(&idx.find("nirvana unplugged")), vec!["About a Girl", "Come as You Are"]);
    assert_eq!(names(&idx.find("nirvana unplugged come")), vec!["Come as You Are"]);
}

#[test]
fn find_splits_on_unicode_whitespace() {
    let idx = library();
    assert_eq!(names(&idx.find("LITHIUM\u{00A0}\tNevermind")), vec!["Lithium"]);
    assert!(idx.find(" \u{3000} ").is_empty());
}
