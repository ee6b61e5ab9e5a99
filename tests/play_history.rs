use sono_palantir::history::{
    play_counts_7d, play_counts_7d_from, popularity_sort, popularity_sort_from, record_play,
    record_play_at, PlayEntry,
};
use sono_palantir::model::Playlist;
use std::time::{SystemTime, UNIX_EPOCH};

fn now_unix() -> u64 {
    SystemTime::now().duration_since(UNIX_EPOCH).unwrap().as_secs()
}

fn entry(playlist: &str, played_at: u64) -> PlayEntry {
    PlayEntry { playlist: playlist.to_string(), played_at }
}

fn playlist(alias: &str, name: &str) -> Playlist {
    Playlist { alias: alias.to_string(), favorite_name: name.to_string() }
}

#[test]
fn test_play_counts_7d_from_counts_recent() {
    let now = now_unix();
    let entries = vec![
        PlayEntry { playlist: "altwave".to_string(), played_at: now - 3600 },
        PlayEntry { playlist: "altwave".to_string(), played_at: now - 3600 * 24 },
        PlayEntry { playlist: "altwave".to_string(), played_at: now - 3600 * 24 * 10 }, // >7d
        PlayEntry { playlist: "jazz".to_string(), played_at: now - 3600 * 24 * 2 },
    ];
    let counts = play_counts_7d_from(&entries, now);
    assert_eq!(counts.get("altwave"), Some(&2));
    assert_eq!(counts.get("jazz"), Some(&1));
    assert!(!counts.contains_key("old"));
}

#[test]
fn test_popularity_sort_from_orders_by_count_desc() {
    let now = now_unix();
    let entries = vec![
        PlayEntry { playlist: "altwave".to_string(), played_at: now - 3600 },
        PlayEntry { playlist: "altwave".to_string(), played_at: now - 7200 },
        PlayEntry { playlist: "altwave".to_string(), played_at: now - 10800 },
        PlayEntry { playlist: "altwave".to_string(), played_at: now - 14400 },
        PlayEntry { playlist: "altwave".to_string(), played_at: now - 18000 },
        PlayEntry { playlist: "jazz".to_string(), played_at: now - 3600 },
        PlayEntry { playlist: "jazz".to_string(), played_at: now - 7200 },
    ];
    let mut playlists = vec![
        Playlist { alias: "jazz".to_string(), favorite_name: "Jazz".to_string() },
        Playlist { alias: "altwave".to_string(), favorite_name: "Alt Wave".to_string() },
    ];
    popularity_sort_from(&mut playlists, &entries, now);
    assert_eq!(playlists[0].alias, "altwave");
    assert_eq!(playlists[1].alias, "jazz");
}

#[test]
fn counts_use_a_strict_seven_day_window() {
    let now = 1_000_000;
    let week = 7 * 24 * 3600;
    let entries = vec![entry("a", now - week), entry("a", now - week + 1), entry("b", now - week - 5)];
    let counts = play_counts_7d_from(&entries, now);
    assert_eq!(counts.get("a"), Some(&1));
    assert!(!counts.contains_key("b"));
    let early = play_counts_7d_from(&[entry("a", 0), entry("a", 1)], 10);
    assert_eq!(early.get("a"), Some(&1));
}

#[test]
fn counts_from_the_clock_see_recent_plays() {
    let now = now_unix();
    let counts = play_counts_7d(&[entry("a", now - 10), entry("a", now - 20)]);
    assert_eq!(counts.get("a"), Some(&2));
}

#[test]
fn ties_are_broken_by_alias_and_unplayed_come_last() {
    let now = 10_000_000;
    let entries = vec![entry("b", now - 1), entry("c", now - 1), entry("c", now - 2)];
    let mut playlists = vec![
        playlist("zed", "Z"),
        playlist("b", "B"),
        playlist("a", "A"),
        playlist("c", "C"),
        playlist("d", "D"),
    ];
    popularity_sort_from(&mut playlists, &entries, now);
    let order: Vec<&str> = playlists.iter().map(|p| p.alias.as_str()).collect();
    assert_eq!(order, vec!["c", "b", "a", "d", "zed"]);
}

#[test]
fn sort_with_no_history_orders_by_alias() {
    let mut playlists = vec![playlist("b", "B"), playlist("ab", "AB"), playlist("a", "A")];
    popularity_sort(&mut playlists, &[]);
    let order: Vec<&str> = playlists.iter().map(|p| p.alias.as_str()).collect();
    assert_eq!(order, vec!["a", "ab", "b"]);
}

#[test]
fn stale_plays_do_not_rank() {
    let now = 100_000_000;
    let entries = vec![entry("jazz", now - 8 * 24 * 3600), entry("jazz", now - 9 * 24 * 3600)];
    let mut playlists = vec![playlist("jazz", "Jazz"), playlist("altwave", "Alt Wave")];
    popularity_sort_from(&mut playlists, &entries, now);
    assert_eq!(playlists[0].alias, "altwave");
}

#[test]
fn recording_prunes_entries_past_ninety_days() {
    let now = 100_000_000;
    let ninety = 90 * 24 * 3600;
    let mut entries = vec![entry("old", now - ninety - 1), entry("edge", now - ninety), entry("fresh", now - 60)];
    record_play_at(&mut entries, "altwave", now);
    let kept: Vec<(&str, u64)> = entries.iter().map(|e| (e.playlist.as_str(), e.played_at)).collect();
    assert_eq!(kept, vec![("fresh", now - 60), ("altwave", now)]);
}

#[test]
fn recording_keeps_only_the_fresh_entry() {
    let mut entries = vec![entry("ancient", 1)];
    record_play(&mut entries, "altwave");
    assert_eq!(entries.len(), 1);
    assert_eq!(entries[0].playlist, "altwave");
    assert!(entries[0].played_at + 5 >= now_unix());
}

#[test]
fn equally_ranked_playlists_keep_their_order() {
    let now = 10_000_000;
    let entries = vec![entry("b", now - 1), entry("old", now - 30 * 24 * 3600)];
    let mut playlists = vec![
        playlist("a", "First A"),
        playlist("old", "Old"),
        playlist("b", "B"),
        playlist("a", "Second A"),
        playlist("a", "Third A"),
    ];
    popularity_sort_from(&mut playlists, &entries, now);
    let order: Vec<&str> = playlists.iter().map(|p| p.favorite_name.as_str()).collect();
    assert_eq!(order, vec!["B", "First A", "Second A", "Third A", "Old"]);
}

#[test]
fn empty_history_sorts_stably_by_alias() {
    let mut playlists = vec![playlist("z", "Z1"), playlist("m", "M"), playlist("z", "Z2")];
    popularity_sort(&mut playlists, &[]);
    let order: Vec<&str> = playlists.iter().map(|p| p.favorite_name.as_str()).collect();
    assert_eq!(order, vec!["M", "Z1", "Z2"]);
}

#[test]
fn stale_plays_anywhere_leave_the_order() {
    let now = 50_000_000;
    let stale = now - 7 * 24 * 3600;
    let fresh = vec![entry("b", now - 5), entry("c", now - 6), entry("b", now - 7)];
    let mixed = vec![
        entry("c", stale),
        entry("b", now - 5),
        entry("c", stale - 100),
        entry("c", now - 6),
        entry("a", 1),
        entry("b", now - 7),
    ];
    let start = vec![playlist("a", "A"), playlist("c", "C"), playlist("b", "B")];
    let mut one = start.clone();
    let mut two = start.clone();
    popularity_sort_from(&mut one, &fresh, now);
    popularity_sort_from(&mut two, &mixed, now);
    let o1: Vec<&str> = one.iter().map(|p| p.alias.as_str()).collect();
    let o2: Vec<&str> = two.iter().map(|p| p.alias.as_str()).collect();
    assert_eq!(o1, vec!["b", "c", "a"]);
    assert_eq!(o1, o2);
}
