use sono_palantir::app::{App, Panel};
use sono_palantir::model::{Speaker, Track};
use sono_palantir::view::{
    format_time, help_bar, now_playing_layout, playlist_rows, speaker_panel, speaker_rows,
    status_line, topology_rows, track_view, truncate, Band, HelpBar, Row, Tone,
};
use sono_palantir::model::Playlist;

fn speaker(name: &str, coordinator: Option<&str>, state: &str) -> Speaker {
    Speaker {
        name: name.to_string(),
        alias: None,
        ip: "10.0.0.2".to_string(),
        volume: 7,
        muted: false,
        state: state.to_string(),
        group_coordinator: coordinator.map(|c| c.to_string()),
        track: None,
    }
}

fn texts(row: &Row) -> Vec<&str> {
    row.spans.iter().map(|s| s.text.as_str()).collect()
}

#[test]
fn format_time_pads_seconds() {
    assert_eq!(format_time(0), "0:00");
    assert_eq!(format_time(65), "1:05");
    assert_eq!(format_time(3600), "60:00");
}

#[test]
fn truncate_adds_ellipsis_only_when_needed() {
    assert_eq!(truncate("short", 24), "short");
    assert_eq!(truncate("abcdef", 4), "abc\u{2026}");
    assert_eq!(truncate("abcd", 4), "abc\u{2026}");
    assert_eq!(truncate("abc", 4), "abc");
    assert_eq!(truncate("", 0), "");
    assert_eq!(truncate("a", 0), "\u{2026}");
}

#[test]
fn flat_list_rows() {
    let mut app = App::new();
    app.speakers = vec![speaker("Kitchen", None, "PLAYING"), speaker("Den", Some("Den"), "OTHER")];
    let rows = speaker_rows(&app);
    assert_eq!(texts(&rows[0]), vec![" \u{25ba} ", "Kitchen       ", "  ", "   7", "  ", "\u{25b6}"]);
    assert!(rows[0].highlight);
    assert_eq!(rows[0].spans[1].tone, Tone::AccentBold);
    assert_eq!(texts(&rows[1]), vec!["   ", "Den           ", " \u{25c8}", "   7", "  ", "\u{b7}"]);
    assert!(!rows[1].highlight);
}

#[test]
fn topology_boxes_fit_longest_name() {
    let mut app = App::new();
    app.speakers = vec![
        speaker("lead", Some("lead"), "PLAYING"),
        speaker("follower", Some("lead"), "PAUSED_PLAYBACK"),
        speaker("solo", None, "STOPPED"),
    ];
    let rows = topology_rows(&app);
    let bar = "\u{2550}".repeat(14);
    assert_eq!(texts(&rows[0]), vec![format!(" \u{2554}{}\u{2557}", bar).as_str()]);
    assert_eq!(
        texts(&rows[1]),
        vec![" \u{2551} ", "lead    ", " \u{25c8}", " ", "\u{25b6}", " \u{2551}"]
    );
    assert_eq!(
        texts(&rows[2]),
        vec![" \u{2551} ", "follower", " \u{21b3}", " ", "\u{23f8}", " \u{2551}"]
    );
    assert_eq!(texts(&rows[3]), vec![format!(" \u{255a}{}\u{255d}", bar).as_str()]);
    assert!(rows[4].spans.is_empty());
    assert_eq!(texts(&rows[5]), vec!["   solo ", "\u{b7}", " (solo)"]);
    assert_eq!(rows.len(), 6);
    assert_eq!(speaker_panel(&app).len(), 6);
}

#[test]
fn panel_is_flat_without_followers() {
    let mut app = App::new();
    app.speakers = vec![speaker("a", Some("a"), "PLAYING"), speaker("b", None, "PLAYING")];
    assert_eq!(speaker_panel(&app).len(), 2);
}

#[test]
fn playlist_rows_mark_selection() {
    let mut app = App::new();
    app.playlists = vec![Playlist {
        alias: "jazz".to_string(),
        favorite_name: "An Extremely Long Playlist Name".to_string(),
    }];
    let rows = playlist_rows(&app);
    assert_eq!(
        texts(&rows[0]),
        vec![" \u{25ba} ", "jazz      ", "An Extremely Long Playl\u{2026}"]
    );
    assert!(!rows[0].highlight);
    app.active_panel = Panel::Playlists;
    assert!(playlist_rows(&app)[0].highlight);
}

#[test]
fn now_playing_bands() {
    assert!(now_playing_layout(0, 10).is_empty());
    assert_eq!(
        now_playing_layout(1, 10),
        vec![Band { entity: 0, top: 0, height: 10, show_volume: true }]
    );
    assert_eq!(
        now_playing_layout(3, 10),
        vec![
            Band { entity: 0, top: 0, height: 3, show_volume: false },
            Band { entity: 1, top: 3, height: 3, show_volume: false },
            Band { entity: 2, top: 6, height: 4, show_volume: false },
        ]
    );
    assert_eq!(
        now_playing_layout(5, 4),
        vec![Band { entity: 0, top: 0, height: 4, show_volume: false }]
    );
}

#[test]
fn track_block_contents() {
    let mut sp = speaker("Den", None, "PLAYING");
    sp.volume = 42;
    let idle = track_view(&sp, true);
    assert_eq!(idle.label, "  Den ");
    assert!(idle.track.is_none());
    sp.track = Some(Track {
        title: "Song".to_string(),
        artist: "Band".to_string(),
        album: "Record".to_string(),
        duration: 200,
        position: 250,
    });
    let v = track_view(&sp, true);
    let t = v.track.unwrap();
    assert_eq!((t.progress_num, t.progress_den), (200, 200));
    assert_eq!(t.time_text, "    4:10 / 3:20");
    assert_eq!(t.volume, Some((42, "Vol: 42".to_string())));
    assert!(track_view(&sp, false).track.unwrap().volume.is_none());
    sp.track.as_mut().unwrap().duration = 0;
    let t = track_view(&sp, false).track.unwrap();
    assert_eq!((t.progress_num, t.progress_den), (0, 1));
}

#[test]
fn status_line_and_help_bar() {
    let mut app = App::new();
    let s = status_line(&app, 0);
    assert_eq!((s.text.as_str(), s.tone), (" ", Tone::Dim));
    app.set_status_at("hi", 1, 0);
    let s = status_line(&app, 10);
    assert_eq!((s.text.as_str(), s.tone), (" hi", Tone::Accent));
    assert_eq!(help_bar(&app), HelpBar::Legend);
    app.volume_input = Some("4".to_string());
    assert_eq!(help_bar(&app), HelpBar::Volume { input: "4".to_string() });
    app.command_input = Some("sl".to_string());
    assert_eq!(
        help_bar(&app),
        HelpBar::Command { input: "sl".to_string(), hint: Some("eep".to_string()) }
    );
}

#[test]
fn tall_bands_show_the_volume_gauge() {
    assert_eq!(
        now_playing_layout(2, 19),
        vec![
            Band { entity: 0, top: 0, height: 9, show_volume: true },
            Band { entity: 1, top: 9, height: 10, show_volume: true },
        ]
    );
    assert_eq!(
        now_playing_layout(2, 17),
        vec![
            Band { entity: 0, top: 0, height: 8, show_volume: false },
            Band { entity: 1, top: 8, height: 9, show_volume: true },
        ]
    );
}
