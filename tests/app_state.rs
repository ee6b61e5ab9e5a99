use sono_palantir::app::{App, Panel};
use sono_palantir::model::{Speaker, Track};
use std::time::{SystemTime, UNIX_EPOCH};

fn make_speaker(name: &str, coordinator: Option<&str>) -> Speaker {
    Speaker {
        name: name.to_string(),
        alias: None,
        ip: "0.0.0.0".to_string(),
        volume: 25,
        muted: false,
        state: "PLAYING".to_string(),
        group_coordinator: coordinator.map(|s| s.to_string()),
        track: None,
    }
}

fn now_millis() -> u64 {
    SystemTime::now().duration_since(UNIX_EPOCH).unwrap().as_millis() as u64
}

#[test]
fn test_is_grouped_when_follower_present() {
    let mut app = App::new();
    app.speakers = vec![
        make_speaker("Family Room", Some("Family Room")),
        make_speaker("cthulhu", Some("Family Room")),
    ];
    assert!(app.is_grouped());
}

#[test]
fn test_is_not_grouped_when_all_self_coordinating() {
    let mut app = App::new();
    app.speakers = vec![
        make_speaker("Family Room", Some("Family Room")),
        make_speaker("cthulhu", Some("cthulhu")),
    ];
    assert!(!app.is_grouped());
}

#[test]
fn test_is_not_grouped_when_coordinators_null() {
    let mut app = App::new();
    app.speakers = vec![
        make_speaker("Family Room", None),
        make_speaker("cthulhu", None),
    ];
    assert!(!app.is_grouped());
}

#[test]
fn test_volume_input_starts_none() {
    let app = App::new();
    assert!(app.volume_input.is_none());
}

#[test]
fn test_volume_input_can_be_set() {
    let mut app = App::new();
    app.volume_input = Some(String::from("42"));
    assert_eq!(app.volume_input.as_deref(), Some("42"));
}

#[test]
fn test_active_status_returns_empty_when_nothing_set() {
    let app = App::new();
    assert_eq!(app.active_status(), "");
}

#[test]
fn test_set_status_returns_message_immediately() {
    let mut app = App::new();
    app.set_status("The gates of Moria are sealed.", 5);
    assert_eq!(app.active_status(), "The gates of Moria are sealed.");
}

#[test]
fn test_active_status_returns_empty_when_expired() {
    let mut app = App::new();
    // Set a status that already expired
    app.status_message = Some("old message".to_string());
    app.status_until = Some(now_millis() - 1000);
    assert_eq!(app.active_status(), "");
}

#[test]
fn test_active_status_returns_sleep_countdown() {
    let mut app = App::new();
    app.sleep_until = Some(now_millis() + 90_000);
    let status = app.active_status();
    assert!(status.starts_with("Sleep: 1:"), "Expected 'Sleep: 1:xx remaining', got: {}", status);
}

#[test]
fn test_coordinators_returns_only_coordinators() {
    let mut app = App::new();
    app.speakers = vec![
        make_speaker("cthulhu", Some("cthulhu")),
        make_speaker("family", Some("cthulhu")),
        make_speaker("hermit", None),
    ];
    let coords = app.coordinators();
    assert_eq!(coords.len(), 1);
    assert_eq!(coords[0].name, "cthulhu");
}

#[test]
fn test_solo_speakers_returns_ungrouped() {
    let mut app = App::new();
    app.speakers = vec![
        make_speaker("cthulhu", Some("cthulhu")),
        make_speaker("hermit", None),
    ];
    let solos = app.solo_speakers();
    assert_eq!(solos.len(), 1);
    assert_eq!(solos[0].name, "hermit");
}

#[test]
fn test_group_members_of_returns_all_members() {
    let mut app = App::new();
    app.speakers = vec![
        make_speaker("cthulhu", Some("cthulhu")),
        make_speaker("family", Some("cthulhu")),
        make_speaker("hermit", None),
    ];
    let members = app.group_members_of("cthulhu");
    assert_eq!(members.len(), 2);
}

#[test]
fn next_then_prev_restores_each_index() {
    let mut app = App::new();
    app.speakers = vec![
        make_speaker("a", None),
        make_speaker("b", None),
        make_speaker("c", None),
    ];
    for i in 0..3 {
        app.speaker_index = i;
        app.next_in_list();
        assert_eq!(app.speaker_index, (i + 1) % 3);
        app.prev_in_list();
        assert_eq!(app.speaker_index, i);
    }
}

#[test]
fn prev_wraps_to_last_and_next_wraps_to_first() {
    let mut app = App::new();
    app.speakers = vec![make_speaker("a", None), make_speaker("b", None)];
    app.prev_in_list();
    assert_eq!(app.speaker_index, 1);
    app.next_in_list();
    assert_eq!(app.speaker_index, 0);
}

#[test]
fn navigation_on_empty_lists_does_nothing() {
    let mut app = App::new();
    app.next_in_list();
    app.prev_in_list();
    assert_eq!(app.speaker_index, 0);
    app.cycle_panel();
    app.next_in_list();
    app.prev_in_list();
    assert_eq!(app.playlist_index, 0);
}

#[test]
fn cycle_panel_goes_round() {
    let mut app = App::new();
    app.cycle_panel();
    assert_eq!(app.active_panel, Panel::Playlists);
    app.cycle_panel();
    assert_eq!(app.active_panel, Panel::NowPlaying);
    app.cycle_panel();
    assert_eq!(app.active_panel, Panel::Speakers);
}

#[test]
fn selection_lookups_are_bounds_checked() {
    let mut app = App::new();
    assert!(app.selected_speaker().is_none());
    assert!(app.selected_playlist().is_none());
    assert!(app.speaker_id().is_none());
    app.speakers = vec![make_speaker("kitchen", None)];
    app.speaker_index = 3;
    assert!(app.selected_speaker().is_none());
    app.speaker_index = 0;
    assert_eq!(app.speaker_id(), Some("kitchen".to_string()));
    app.speakers[0].alias = Some("kit".to_string());
    assert_eq!(app.speaker_id(), Some("kit".to_string()));
}

#[test]
fn roles_partition_the_speakers() {
    let mut app = App::new();
    app.speakers = vec![
        make_speaker("a", Some("a")),
        make_speaker("b", Some("a")),
        make_speaker("c", None),
        make_speaker("d", Some("d")),
        make_speaker("e", Some("zzz")),
    ];
    let coords = app.coordinators().len();
    let solos = app.solo_speakers().len();
    assert_eq!(coords, 2);
    assert_eq!(solos, 1);
    assert_eq!(coords + solos + 2, app.speakers.len());
}

#[test]
fn message_masks_live_sleep_countdown() {
    let mut app = App::new();
    app.status_message = Some("hello".to_string());
    app.status_until = Some(2_000);
    app.sleep_until = Some(100_000);
    assert_eq!(app.status_at(1_000), "hello");
    assert_eq!(app.status_at(2_000), "Sleep: 1:38 remaining");
    assert_eq!(app.status_at(100_000), "");
}

#[test]
fn sleep_countdown_pads_seconds() {
    let mut app = App::new();
    app.sleep_until = Some(65_500);
    assert_eq!(app.status_at(0), "Sleep: 1:05 remaining");
}

#[test]
fn set_status_at_sets_expiry() {
    let mut app = App::new();
    app.set_status_at("x", 3, 1_000);
    assert_eq!(app.status_until, Some(4_000));
    app.set_status_at("y", u64::MAX, 1_000);
    assert_eq!(app.status_until, Some(u64::MAX));
}

#[test]
fn playing_entities_follow_topology() {
    let mut app = App::new();
    let track = Track {
        title: "t".to_string(),
        artist: "a".to_string(),
        album: "b".to_string(),
        duration: 10,
        position: 1,
    };
    app.speakers = vec![make_speaker("a", None), make_speaker("b", None)];
    app.speaker_index = 1;
    let e = app.playing_entities();
    assert_eq!(e.len(), 1);
    assert_eq!(e[0].name, "b");
    let mut lead = make_speaker("lead", Some("lead"));
    lead.track = Some(track.clone());
    let follower = make_speaker("f", Some("lead"));
    let mut solo = make_speaker("solo", None);
    solo.track = Some(track);
    let idle = make_speaker("idle", None);
    app.speakers = vec![lead, follower, solo, idle];
    let e = app.playing_entities();
    let names: Vec<&str> = e.iter().map(|s| s.name.as_str()).collect();
    assert_eq!(names, vec!["lead", "solo"]);
}
