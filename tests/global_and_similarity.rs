use teal_wrapped_api::global::{calculate_global_stats, calculate_global_wrapped_stats, user_totals};
use teal_wrapped_api::percentile::{percentile_cont_x100, percentile_rank, percentile_table, whole_percentile_table};
use teal_wrapped_api::play::{ArtistRef, PlayRow};
use teal_wrapped_api::refresh::{next_refresh_action, RefreshAction, RetryQueue};
use teal_wrapped_api::similar::find_similar_users;

const JAN_1_2025: i64 = 1_735_689_600_000;

fn row(user: &str, track: &str, artists: &[&str], at: i64, duration_ms: Option<i32>) -> PlayRow {
    PlayRow {
        user_did: user.to_string(),
        uri: format!("at://{}/{}", user, at),
        track_name: track.to_string(),
        artists: artists
            .iter()
            .map(|a| ArtistRef { name: a.to_string(), mb_id: None })
            .collect(),
        recording_mb_id: None,
        track_mb_id: None,
        release_mb_id: None,
        release_name: None,
        duration_ms,
        played_at: at,
    }
}

#[test]
fn similar_users_ranked_by_shared_artists() {
    let plays = vec![
        row("C", "c1", &["X"], JAN_1_2025, None),
        row("A", "a1", &["X", "Guest"], JAN_1_2025 + 1, None),
        row("A", "a2", &["Z"], JAN_1_2025 + 2, None),
        row("A", "a3", &["Y"], JAN_1_2025 + 3, None),
        row("B", "b1", &["Y"], JAN_1_2025 + 4, None),
        row("B", "b2", &["Z", "W"], JAN_1_2025 + 5, None),
        row("D", "d1", &["Q", "X"], JAN_1_2025 + 6, None),
        row("E", "e1", &["Guest"], JAN_1_2025 + 7, None),
    ];
    let similar = find_similar_users(&plays, &"A".to_string(), 2);
    assert_eq!(similar.len(), 2);
    assert_eq!(similar[0].did, "B");
    assert_eq!(similar[0].similarity_score, 2);
    let mut shared = similar[0].shared_artists.clone();
    shared.sort();
    assert_eq!(shared, vec!["Y".to_string(), "Z".to_string()]);
    assert_eq!(similar[1].did, "C");
    assert_eq!(similar[1].similarity_score, 1);
    assert_eq!(similar[1].shared_artists, vec!["X".to_string()]);
    let one = find_similar_users(&plays, &"A".to_string(), 1);
    assert_eq!(one.len(), 1);
    assert_eq!(one[0].did, "B");
    let all = find_similar_users(&plays, &"A".to_string(), 10);
    assert_eq!(all.len(), 2);
    assert!(find_similar_users(&plays, &"nobody".to_string(), 3).is_empty());
}

#[test]
fn percentile_interpolation() {
    let v = vec![1, 2, 3, 4, 5];
    assert_eq!(percentile_cont_x100(&v, 0), 100);
    assert_eq!(percentile_cont_x100(&v, 10), 140);
    assert_eq!(percentile_cont_x100(&v, 50), 300);
    assert_eq!(percentile_cont_x100(&v, 95), 480);
    assert_eq!(percentile_cont_x100(&v, 100), 500);
    assert_eq!(percentile_cont_x100(&vec![7], 35), 700);
}

#[test]
fn percentile_tables_grow() {
    let values = vec![30, 1, 8, 8, 100, 2];
    let t = percentile_table(&values, 95);
    assert_eq!(t.len(), 20);
    assert_eq!(t[0], (0, 100));
    assert_eq!(t[10], (50, 800));
    for k in 1..t.len() {
        assert!(t[k - 1].1 <= t[k].1);
        assert_eq!(t[k].0, 5 * k as u64);
    }
    let w = whole_percentile_table(&values, 100);
    assert_eq!(w.len(), 21);
    assert_eq!(w[20], (100, 100));
    // The 10th percentile of [1, 2, 8, 8, 30, 100] is 1.5, rounded to 2.
    assert_eq!(w[2], (10, 2));
    for k in 1..w.len() {
        assert!(w[k - 1].1 <= w[k].1);
    }
    assert!(percentile_table(&vec![], 100).is_empty());
}

#[test]
fn percentile_rank_counts_strictly_below() {
    let values = vec![10, 20, 20, 30];
    assert_eq!(percentile_rank(&values, 20, 4), Some(25));
    assert_eq!(percentile_rank(&values, 31, 4), Some(100));
    assert_eq!(percentile_rank(&values, 10, 4), Some(0));
    assert_eq!(percentile_rank(&vec![1, 2, 3], 3, 3), Some(66));
    assert_eq!(percentile_rank(&vec![], 3, 0), None);
}

fn platform() -> Vec<PlayRow> {
    vec![
        row("u1", "s1", &["Art", "Guest"], JAN_1_2025, Some(120_000)),
        row("u2", "s1", &["Art"], JAN_1_2025 + 1, None),
        row("u1", "s2", &["Other"], JAN_1_2025 + 2, Some(60_000)),
        row("u3", "s1", &["Art"], JAN_1_2025 + 3, Some(30_000)),
        row("u1", "s1", &["Art"], JAN_1_2025 + 4, Some(0)),
    ]
}

#[test]
fn per_user_totals() {
    let t = user_totals(&platform());
    assert_eq!(t.len(), 3);
    assert_eq!(t[0].user_did, "u1");
    assert_eq!(t[0].plays, 3);
    assert_eq!(t[0].duration_ms, 180_000);
    assert_eq!(t[0].unique_artists, 3);
    assert_eq!(t[0].unique_tracks, 2);
    assert_eq!(t[1].user_did, "u2");
    assert_eq!(t[1].duration_ms, 210_000);
}

#[test]
fn global_stats_of_a_platform() {
    let g = calculate_global_stats(&platform(), 2025);
    assert_eq!(g.year, 2025);
    assert_eq!(g.total_plays, 5);
    assert_eq!(g.total_duration_ms, 420_000);
    assert_eq!(g.unique_users, 3);
    assert_eq!(g.unique_artists, 2);
    assert_eq!(g.unique_tracks, 2);
    assert_eq!(g.top_artists[0].name, "Art");
    assert_eq!(g.top_artists[0].play_count, 4);
    assert_eq!(g.top_artists[0].user_count, 3);
    assert_eq!(g.top_tracks[0].track_name, "s1");
    assert_eq!(g.top_tracks[0].user_count, 3);
    assert_eq!(g.top_users[0].user_did, "u1");
    assert_eq!(g.top_users[0].play_count, 3);
}

#[test]
fn global_wrapped_with_user_rank() {
    let mut plays = platform();
    plays[0].recording_mb_id = Some("rec".to_string());
    let g = calculate_global_wrapped_stats(&plays, Some(&"u2".to_string()));
    assert_eq!(g.total_users, 3);
    assert_eq!(g.verified_duration_ms, 120_000);
    assert_eq!(g.unique_artists, 3);
    assert_eq!(g.top_users.len(), 3);
    let p = g.user_percentile.unwrap();
    // u2 listened 210000 ms; u1 180000 and u3 30000 are below.
    assert_eq!(p.total_minutes, 66);
    assert_eq!(p.total_plays, 0);
    assert_eq!(g.distribution.plays_percentiles.len(), 21);
    assert_eq!(g.distribution.duration_percentiles.len(), 21);
    assert_eq!(g.distribution.duration_percentiles[20], (100, 21_000_000));
    assert_eq!(g.distribution.duration_percentiles[0], (0, 3_000_000));
    let none = calculate_global_wrapped_stats(&plays, None);
    assert!(none.user_percentile.is_none());
    let empty = calculate_global_wrapped_stats(&vec![], Some(&"u2".to_string()));
    assert!(empty.user_percentile.is_none());
    assert!(empty.distribution.tracks_percentiles.is_empty());
}

#[test]
fn refresh_backs_off_then_gives_up() {
    assert!(matches!(next_refresh_action(1, true), RefreshAction::Finish(true)));
    assert!(matches!(next_refresh_action(1, false), RefreshAction::Retry { delay_ms: 100 }));
    assert!(matches!(next_refresh_action(3, false), RefreshAction::Retry { delay_ms: 400 }));
    assert!(matches!(next_refresh_action(9, false), RefreshAction::Retry { delay_ms: 25_600 }));
    assert!(matches!(next_refresh_action(10, false), RefreshAction::Finish(false)));
    assert!(matches!(next_refresh_action(10, true), RefreshAction::Finish(true)));
}

#[test]
fn retry_queue_counts_repeated_failures() {
    let mut q = RetryQueue::new();
    let a = "did:a".to_string();
    let b = "did:b".to_string();
    q.enqueue(&a, 50);
    q.enqueue(&b, 10);
    q.enqueue(&a, 70);
    let list = q.list();
    assert_eq!(list.len(), 2);
    assert_eq!(list[0].user_did, "did:b");
    assert_eq!(list[0].retry_count, 0);
    assert_eq!(list[1].user_did, "did:a");
    assert_eq!(list[1].retry_count, 1);
    assert_eq!(list[1].last_attempt_ms, 70);
    q.remove(&a);
    assert_eq!(q.list().len(), 1);
    q.remove(&a);
    assert_eq!(q.list().len(), 1);
    q.clear();
    assert!(q.list().is_empty());
}
