use teal_wrapped_api::names::normalize_name;
use teal_wrapped_api::record::{
    extract_artists_from_play, extract_scrobbles, is_play_key, make_record_uri, scrobbles_in_year,
    Play, PlayArtist, PlayExtractor, RepoBlock, ScrobbleRecord,
};

fn play(track: &str, artists: Option<Vec<(&str, Option<&str>)>>) -> Play {
    Play {
        track_name: track.to_string(),
        artists: artists.map(|v| {
            v.into_iter()
                .map(|(n, id)| PlayArtist {
                    artist_name: n.to_string(),
                    artist_mb_id: id.map(|s| s.to_string()),
                })
                .collect()
        }),
        artist_names: None,
        artist_mb_ids: None,
        duration: Some(200),
        recording_mb_id: None,
        track_mb_id: None,
        release_mb_id: None,
        release_name: None,
        played_time: Some("2025-03-01T10:00:00Z".to_string()),
    }
}

fn scrobble(uri: &str, time: Option<&str>) -> ScrobbleRecord {
    ScrobbleRecord {
        uri: uri.to_string(),
        cid: String::new(),
        track_name: "Song".to_string(),
        artists: vec!["Band".to_string()],
        played_time: time.map(|t| t.to_string()),
        duration: None,
        recording_mb_id: None,
        track_mb_id: None,
        release_mb_id: None,
        release_name: None,
        artist_mb_ids: None,
    }
}

#[test]
fn normalize_lowercases_and_trims() {
    assert_eq!(normalize_name("  Radiohead  "), "radiohead");
    assert_eq!(normalize_name("BJÖRK"), "björk");
}

#[test]
fn normalize_drops_article_and_punctuation() {
    assert_eq!(normalize_name("The Beatles"), "beatles");
    assert_eq!(normalize_name("AC/DC"), "acdc");
    assert_eq!(normalize_name("Guns N' Roses"), "guns n roses");
    assert_eq!(normalize_name("bathe the dog"), "badog");
}

#[test]
fn normalize_collapses_whitespace() {
    assert_eq!(normalize_name("Sigur   Rós\t\tLive"), "sigur rós live");
    assert_eq!(normalize_name("   "), "");
    assert_eq!(normalize_name(""), "");
}

#[test]
fn artists_from_current_layout() {
    let p = play("T", Some(vec![("A", Some("id-a")), ("B", None), ("C", Some("id-c"))]));
    let (names, ids) = extract_artists_from_play(&p);
    assert_eq!(names, vec!["A".to_string(), "B".to_string(), "C".to_string()]);
    assert_eq!(ids, Some(vec!["id-a".to_string(), "id-c".to_string()]));
}

#[test]
fn artists_without_identifiers_give_none() {
    let p = play("T", Some(vec![("A", None)]));
    let (names, ids) = extract_artists_from_play(&p);
    assert_eq!(names, vec!["A".to_string()]);
    assert_eq!(ids, None);
}

#[test]
fn artists_from_parallel_lists() {
    let mut p = play("T", None);
    p.artist_names = Some(vec!["X".to_string(), "Y".to_string()]);
    p.artist_mb_ids = Some(vec![]);
    let (names, ids) = extract_artists_from_play(&p);
    assert_eq!(names, vec!["X".to_string(), "Y".to_string()]);
    assert_eq!(ids, None);
    p.artist_mb_ids = Some(vec!["x1".to_string()]);
    let (_, ids) = extract_artists_from_play(&p);
    assert_eq!(ids, Some(vec!["x1".to_string()]));
    p.artist_names = None;
    let (names, _) = extract_artists_from_play(&p);
    assert!(names.is_empty());
}

#[test]
fn play_keys_and_uris() {
    assert!(is_play_key("fm.teal.alpha.feed.play/3kabc"));
    assert!(!is_play_key("app.bsky.feed.post/3kabc"));
    assert!(!is_play_key("fm.teal"));
    assert_eq!(
        make_record_uri("did:plc:abc", "fm.teal.alpha.feed.play/1"),
        "at://did:plc:abc/fm.teal.alpha.feed.play/1"
    );
}

fn blocks() -> Vec<RepoBlock> {
    vec![
        RepoBlock { rkey: "fm.teal.alpha.feed.play/1".to_string(), play: Some(play("One", None)) },
        RepoBlock { rkey: "app.bsky.feed.post/2".to_string(), play: Some(play("Post", None)) },
        RepoBlock { rkey: "fm.teal.alpha.feed.play/3".to_string(), play: None },
        RepoBlock { rkey: "fm.teal.alpha.feed.play/4".to_string(), play: Some(play("Four", None)) },
        RepoBlock { rkey: "fm.teal.alpha.feed.play/5".to_string(), play: Some(play("Five", None)) },
    ]
}

#[test]
fn extraction_keeps_decoded_play_records() {
    let found = extract_scrobbles("did:plc:u", &blocks());
    let names: Vec<&str> = found.iter().map(|s| s.track_name.as_str()).collect();
    assert_eq!(names, vec!["One", "Four", "Five"]);
    assert_eq!(found[0].uri, "at://did:plc:u/fm.teal.alpha.feed.play/1");
    assert_eq!(found[0].cid, "");
    assert_eq!(found[0].duration, Some(200));
}

#[test]
fn chunked_extraction_matches_whole() {
    let all = blocks();
    let whole = extract_scrobbles("did:plc:u", &all);
    for size in 1..=all.len() {
        let mut x = PlayExtractor::new("did:plc:u");
        let mut rest: Vec<RepoBlock> = blocks();
        while !rest.is_empty() {
            let tail = rest.split_off(size.min(rest.len()));
            x.push_chunk(&rest);
            rest = tail;
        }
        let a: Vec<&str> = x.found.iter().map(|s| s.uri.as_str()).collect();
        let b: Vec<&str> = whole.iter().map(|s| s.uri.as_str()).collect();
        assert_eq!(a, b);
    }
}

#[test]
fn year_filter_reads_the_local_year() {
    let all = vec![
        scrobble("u1", Some("2024-12-31T23:30:00-05:00")),
        scrobble("u2", Some("2025-01-01T00:30:00Z")),
        scrobble("u3", Some("not a time")),
        scrobble("u4", None),
    ];
    let in_2024 = scrobbles_in_year(&all, Some(2024));
    assert_eq!(in_2024.len(), 1);
    assert_eq!(in_2024[0].uri, "u1");
    let in_2025 = scrobbles_in_year(&all, Some(2025));
    assert_eq!(in_2025.len(), 1);
    assert_eq!(in_2025[0].uri, "u2");
    assert_eq!(scrobbles_in_year(&all, None).len(), 4);
}
