use teal_wrapped_api::play::{ArtistRef, PlayRow};
use teal_wrapped_api::record::ScrobbleRecord;
use teal_wrapped_api::stats::{
    calculate_longest_streak, counted_totals, daily_activity, hourly_distribution,
    longest_session_ms, round_to_minutes, top_hour,
};
use teal_wrapped_api::store::PlayStore;
use teal_wrapped_api::time::{day_number, hour_number, is_weekend};
use teal_wrapped_api::wrapped::{top_artists, top_tracks, wrapped_stats_of};

const DAY: i64 = 86_400_000;
const MINUTE: i64 = 60_000;
// 2025-01-01T00:00:00Z
const JAN_1_2025: i64 = 1_735_689_600_000;

fn row(user: &str, track: &str, artist: &str, at: i64, duration_ms: Option<i32>) -> PlayRow {
    PlayRow {
        user_did: user.to_string(),
        uri: format!("at://{}/{}", user, at),
        track_name: track.to_string(),
        artists: vec![ArtistRef { name: artist.to_string(), mb_id: None }],
        recording_mb_id: None,
        track_mb_id: None,
        release_mb_id: None,
        release_name: None,
        duration_ms,
        played_at: at,
    }
}

fn event(uri: &str, track: &str, artists: &[&str], ids: Option<Vec<&str>>, time: &str) -> ScrobbleRecord {
    ScrobbleRecord {
        uri: uri.to_string(),
        cid: String::new(),
        track_name: track.to_string(),
        artists: artists.iter().map(|a| a.to_string()).collect(),
        played_time: Some(time.to_string()),
        duration: Some(180),
        recording_mb_id: None,
        track_mb_id: None,
        release_mb_id: None,
        release_name: None,
        artist_mb_ids: ids.map(|v| v.into_iter().map(|s| s.to_string()).collect()),
    }
}

#[test]
fn calendar_arithmetic() {
    assert_eq!(day_number(JAN_1_2025), 20089);
    assert_eq!(day_number(JAN_1_2025 - 1), 20088);
    assert_eq!(day_number(-1), -1);
    assert_eq!(day_number(-DAY), -1);
    assert_eq!(day_number(-DAY - 1), -2);
    assert_eq!(hour_number(JAN_1_2025 + 13 * 3_600_000 + 59 * MINUTE), 13);
    assert_eq!(hour_number(-1), 23);
    // 2025-01-04 was a Saturday, 2025-01-06 a Monday, 1969-12-28 a Sunday.
    assert!(is_weekend(20092));
    assert!(!is_weekend(20094));
    assert!(is_weekend(-4));
    assert!(!is_weekend(-1));
}

#[test]
fn streak_of_example_dates() {
    // 2025-01-01, 01-02, 01-03 and 01-10, given out of order and repeated.
    let days = vec![20098, 20089, 20091, 20090, 20089];
    assert_eq!(calculate_longest_streak(&days), 3);
}

#[test]
fn streak_edge_cases() {
    assert_eq!(calculate_longest_streak(&vec![]), 0);
    assert_eq!(calculate_longest_streak(&vec![5]), 1);
    assert_eq!(calculate_longest_streak(&vec![1, 3, 5]), 1);
    assert_eq!(calculate_longest_streak(&vec![10, 11, 12, 13, 1, 2]), 4);
}

#[test]
fn session_of_example_plays() {
    let plays: Vec<PlayRow> = [20, 0, 4, 2]
        .iter()
        .map(|m| row("did:a", "t", "a", JAN_1_2025 + m * MINUTE, None))
        .collect();
    let span = longest_session_ms(&plays);
    assert_eq!(span, 4 * MINUTE as u64);
    assert_eq!(round_to_minutes(span), 4);
}

#[test]
fn session_gap_of_exactly_six_minutes_continues() {
    let plays: Vec<PlayRow> = [0, 6, 12, 19]
        .iter()
        .map(|m| row("did:a", "t", "a", JAN_1_2025 + m * MINUTE, None))
        .collect();
    assert_eq!(round_to_minutes(longest_session_ms(&plays)), 12);
    assert_eq!(longest_session_ms(&vec![]), 0);
}

#[test]
fn rounding_to_minutes() {
    assert_eq!(round_to_minutes(89_999), 1);
    assert_eq!(round_to_minutes(90_000), 2);
    assert_eq!(round_to_minutes(29_999), 0);
}

#[test]
fn hours_and_top_hour() {
    let plays = vec![
        row("did:a", "t", "a", JAN_1_2025 + 5 * 3_600_000, None),
        row("did:a", "t", "a", JAN_1_2025 + 9 * 3_600_000, None),
        row("did:a", "t", "a", JAN_1_2025 + DAY + 9 * 3_600_000, None),
        row("did:a", "t", "a", JAN_1_2025 + 5 * 3_600_000 + 1, None),
    ];
    let dist = hourly_distribution(&plays);
    assert_eq!(dist.len(), 24);
    assert_eq!(dist[5], 2);
    assert_eq!(dist[9], 2);
    assert_eq!(dist.iter().sum::<u64>(), 4);
    assert_eq!(top_hour(&dist), 5);
    assert_eq!(top_hour(&vec![0; 24]), 0);
}

#[test]
fn daily_counts_sum_to_plays() {
    let plays = vec![
        row("did:a", "t", "a", JAN_1_2025, Some(1000)),
        row("did:a", "t", "a", JAN_1_2025 + 2 * DAY, None),
        row("did:a", "t", "a", JAN_1_2025 + 10, Some(3000)),
    ];
    let days = daily_activity(&plays);
    assert_eq!(days.len(), 2);
    let total: u64 = days.iter().map(|d| d.plays).sum();
    assert_eq!(total, plays.len() as u64);
    let first = days.iter().find(|d| d.day == 20089).unwrap();
    assert_eq!(first.plays, 2);
    assert_eq!(first.duration_ms, 4000);
    let other = days.iter().find(|d| d.day == 20091).unwrap();
    assert_eq!(other.duration_ms, 210_000);
}

#[test]
fn totals_use_the_fallback_duration() {
    // 2025-01-04 is a Saturday, 2025-01-06 a Monday.
    let plays = vec![
        row("did:a", "t", "a", JAN_1_2025 + 3 * DAY, Some(60_000)),
        row("did:a", "t", "a", JAN_1_2025 + 5 * DAY, None),
    ];
    let (total, weekday, weekend) = counted_totals(&plays);
    assert_eq!(total, 270_000);
    assert_eq!(weekday, 210_000);
    assert_eq!(weekend, 60_000);
}

#[test]
fn rankings_break_ties_by_first_play() {
    let plays = vec![
        row("did:a", "t1", "Zed", JAN_1_2025, None),
        row("did:a", "t2", "Amy", JAN_1_2025 + 1, None),
        row("did:a", "t2", "Amy", JAN_1_2025 + 2, None),
        row("did:a", "t3", "Zed", JAN_1_2025 + 3, None),
        row("did:a", "t4", "Bob", JAN_1_2025 + 4, None),
    ];
    let artists = top_artists(&plays, 10);
    let names: Vec<&str> = artists.iter().map(|a| a.name.as_str()).collect();
    assert_eq!(names, vec!["Zed", "Amy", "Bob"]);
    assert_eq!(artists[0].plays, 2);
    assert_eq!(artists[0].duration_ms, 420_000);
    let top2 = top_artists(&plays, 2);
    assert_eq!(top2.len(), 2);
    let tracks = top_tracks(&plays, 1);
    assert_eq!(tracks.len(), 1);
    assert_eq!(tracks[0].track_name, "t2");
    assert_eq!(tracks[0].artist_name, "Amy");
    assert_eq!(tracks[0].plays, 2);
}

#[test]
fn wrapped_bundle_of_a_small_year() {
    let mut first = row("did:a", "Song", "Band", JAN_1_2025, Some(100_000));
    first.artists[0].mb_id = Some("band-id".to_string());
    let plays = vec![
        first,
        row("did:a", "Song", "Band", JAN_1_2025 + 2 * MINUTE, Some(300_000)),
        row("did:a", "Other", "Solo", JAN_1_2025 + DAY, None),
        row("did:a", "Song", "Band", JAN_1_2025 + 9 * DAY, None),
    ];
    let s = wrapped_stats_of(&plays);
    assert_eq!(s.total_plays, 4);
    assert_eq!(s.total_duration_ms, 100_000 + 300_000 + 210_000 + 210_000);
    assert_eq!(s.avg_track_length_ms, 205_000);
    assert_eq!(s.unique_tracks, 2);
    assert_eq!(s.new_artists_count, 2);
    assert_eq!(s.days_active, 3);
    assert_eq!(s.longest_streak, 2);
    assert_eq!(s.longest_session_minutes, 2);
    assert_eq!(s.top_hour, 0);
    assert_eq!(s.top_artists[0].name, "Band");
    assert_eq!(s.top_artists[0].plays, 3);
    assert_eq!(s.top_artists[0].mb_id, Some("band-id".to_string()));
    assert_eq!(s.top_track_per_artist.len(), 2);
    assert_eq!(s.top_track_per_artist[0].track_name, "Song");
    assert_eq!(s.top_track_per_artist[0].plays, 3);
    assert_eq!(s.top_track_per_artist[0].duration_ms, 300_000);
    assert_eq!(s.top_track_per_artist[1].duration_ms, 210_000);
    // 2025-01-01 and 01-02 are weekdays, 2025-01-10 a Friday.
    assert_eq!(s.weekday_days, 3);
    assert_eq!(s.weekend_days, 0);
}

#[test]
fn empty_year_gives_zeros() {
    let s = wrapped_stats_of(&vec![]);
    assert_eq!(s.total_plays, 0);
    assert_eq!(s.avg_track_length_ms, 0);
    assert_eq!(s.longest_streak, 0);
    assert_eq!(s.longest_session_minutes, 0);
    assert!(s.top_artists.is_empty());
    assert!(s.daily_plays.is_empty());
}

#[test]
fn store_inherits_a_missing_artist_identifier() {
    let mut store = PlayStore::new();
    let first = event("at://a/1", "Hit", &["Foo"], Some(vec!["X"]), "2025-02-01T10:00:00Z");
    let second = event("at://b/2", "Other", &["  foo "], None, "2025-02-02T10:00:00Z");
    assert_eq!(store.store_user_plays("did:a", &vec![first]), 1);
    assert_eq!(store.store_user_plays("did:b", &vec![second]), 1);
    assert_eq!(store.rows[0].artists[0].mb_id, Some("X".to_string()));
    assert_eq!(store.rows[1].artists[0].mb_id, Some("X".to_string()));
    assert_eq!(store.rows[1].artists[0].name, "  foo ");
}

#[test]
fn store_keeps_a_given_identifier() {
    let mut store = PlayStore::new();
    let first = event("at://a/1", "Hit", &["Foo"], Some(vec!["X"]), "2025-02-01T10:00:00Z");
    let second = event("at://a/2", "Hit", &["Foo", "Bar"], Some(vec!["Y"]), "2025-02-01T11:00:00Z");
    store.store_user_plays("did:a", &vec![first, second]);
    assert_eq!(store.rows[1].artists[0].mb_id, Some("Y".to_string()));
    assert_eq!(store.rows[1].artists[1].mb_id, None);
    assert_eq!(store.rows[0].artists[0].mb_id, Some("X".to_string()));
}

#[test]
fn store_inherits_recording_and_release() {
    let mut store = PlayStore::new();
    let mut first = event("at://a/1", "The Song", &["Band"], None, "2025-02-01T10:00:00Z");
    first.recording_mb_id = Some("rec".to_string());
    first.release_name = Some("Album".to_string());
    first.release_mb_id = Some("rel".to_string());
    let mut second = event("at://a/2", "song!", &["BAND"], None, "2025-02-01T11:00:00Z");
    second.release_name = Some("ALBUM".to_string());
    store.store_user_plays("did:a", &vec![first, second]);
    assert_eq!(store.rows[1].recording_mb_id, Some("rec".to_string()));
    assert_eq!(store.rows[1].release_mb_id, Some("rel".to_string()));
}

#[test]
fn store_is_idempotent() {
    let batch = vec![
        event("at://a/1", "One", &["A"], None, "2025-02-01T10:00:00Z"),
        event("at://a/2", "Two", &["B"], None, "2025-02-01T10:05:00+02:00"),
        event("at://a/1", "Again", &["A"], None, "2025-02-01T10:00:00Z"),
        event("at://a/3", "Bad", &["C"], None, "yesterday"),
    ];
    let mut store = PlayStore::new();
    assert_eq!(store.store_user_plays("did:a", &batch), 2);
    let once = store.calculate_wrapped_stats("did:a", 2025);
    assert_eq!(store.store_user_plays("did:a", &batch), 0);
    assert_eq!(store.len(), 2);
    let twice = store.calculate_wrapped_stats("did:a", 2025);
    assert_eq!(once.total_plays, twice.total_plays);
    assert_eq!(once.total_duration_ms, twice.total_duration_ms);
    assert_eq!(twice.total_plays, 2);
    assert_eq!(store.rows[0].track_name, "One");
    assert_eq!(store.rows[1].played_at, 1_738_397_100_000);
    assert_eq!(store.rows[1].duration_ms, Some(180_000));
}

#[test]
fn store_drops_durations_that_do_not_fit() {
    let mut e = event("at://a/1", "Long", &["A"], None, "2025-02-01T10:00:00Z");
    e.duration = Some(3_000_000);
    let mut store = PlayStore::new();
    store.store_user_plays("did:a", &vec![e]);
    assert_eq!(store.rows[0].duration_ms, None);
}

#[test]
fn year_query_filters_user_and_year_and_orders_by_time() {
    let mut store = PlayStore::new();
    store.store_user_plays(
        "did:a",
        &vec![
            event("at://a/2", "Later", &["A"], None, "2025-06-01T10:00:00Z"),
            event("at://a/1", "Earlier", &["A"], None, "2025-01-01T10:00:00Z"),
            event("at://a/0", "Old", &["A"], None, "2024-12-31T23:00:00Z"),
        ],
    );
    store.store_user_plays("did:b", &vec![event("at://b/1", "Theirs", &["B"], None, "2025-03-01T10:00:00Z")]);
    let plays = store.plays_for_year("did:a", 2025);
    let names: Vec<&str> = plays.iter().map(|p| p.track_name.as_str()).collect();
    assert_eq!(names, vec!["Earlier", "Later"]);
    let stats = store.calculate_wrapped_stats("did:a", 2025);
    let daily: u64 = stats.daily_plays.iter().map(|d| d.plays).sum();
    assert_eq!(stats.total_plays, 2);
    assert_eq!(daily, 2);
}

#[test]
fn backfill_fills_identifiers_seen_later() {
    let mut store = PlayStore::new();
    let early = event("at://a/1", "Tune", &["foo", "Guest"], None, "2025-02-01T10:00:00Z");
    let mut later = event("at://a/2", "tune", &["Foo", "guest"], Some(vec!["X", "G"]), "2025-02-02T10:00:00Z");
    later.recording_mb_id = Some("rec".to_string());
    store.store_user_plays("did:a", &vec![early, later]);
    assert_eq!(store.rows[0].artists[0].mb_id, None);
    assert_eq!(store.backfill_identifiers(), 1);
    assert_eq!(store.rows[0].artists[0].mb_id, Some("X".to_string()));
    assert_eq!(store.rows[0].artists[1].mb_id, Some("G".to_string()));
    assert_eq!(store.rows[0].recording_mb_id, Some("rec".to_string()));
    assert_eq!(store.rows[1].artists[0].mb_id, Some("X".to_string()));
    assert_eq!(store.backfill_identifiers(), 0);
}

#[test]
fn equal_play_times_keep_store_order() {
    let mut store = PlayStore::new();
    store.store_user_plays(
        "did:a",
        &vec![
            event("at://a/3", "Third", &["C"], None, "2025-03-01T10:00:00Z"),
            event("at://a/1", "First", &["A"], None, "2025-03-01T09:00:00Z"),
            event("at://a/2", "Second", &["B"], None, "2025-03-01T10:00:00Z"),
        ],
    );
    store.store_user_plays("did:b", &vec![event("at://b/1", "Theirs", &["B"], None, "2025-03-01T09:30:00Z")]);
    let mine = store.plays_for_year("did:a", 2025);
    let mine: Vec<&str> = mine.iter().map(|p| p.track_name.as_str()).collect();
    assert_eq!(mine, vec!["First", "Third", "Second"]);
    let all = store.all_plays_for_year(2025);
    let names: Vec<&str> = all.iter().map(|p| p.track_name.as_str()).collect();
    assert_eq!(names, vec!["First", "Theirs", "Third", "Second"]);
    assert!(store.all_plays_for_year(2024).is_empty());
    // Equally played artists rank in order of first play.
    let s = store.calculate_wrapped_stats("did:a", 2025);
    let artists: Vec<&str> = s.top_artists.iter().map(|a| a.name.as_str()).collect();
    assert_eq!(artists, vec!["A", "C", "B"]);
}

#[test]
fn daily_activity_lists_days_in_order_of_first_play() {
    let plays = vec![
        row("did:a", "t", "a", JAN_1_2025 + 5 * DAY, None),
        row("did:a", "t", "a", JAN_1_2025, None),
        row("did:a", "t", "a", JAN_1_2025 + 5 * DAY + 1, None),
        row("did:a", "t", "a", JAN_1_2025 + 2 * DAY, None),
    ];
    let days: Vec<i64> = daily_activity(&plays).iter().map(|d| d.day).collect();
    assert_eq!(days, vec![20094, 20089, 20091]);
}
