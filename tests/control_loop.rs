use sono_palantir::app::App;
use sono_palantir::control::{
    apply_sort_mode, execute_command, find_folded, handle_key, open_session, refresh_catalog, settle,
    sleep_tick, Action, KeyCode, KeyPress, Notice, Request,
};
use sono_palantir::history::PlayEntry;
use sono_palantir::model::{merge_favorites, Playlist, Speaker};

fn speaker(name: &str, alias: Option<&str>, volume: u8, state: &str) -> Speaker {
    Speaker {
        name: name.to_string(),
        alias: alias.map(|a| a.to_string()),
        ip: "10.0.0.1".to_string(),
        volume,
        muted: false,
        state: state.to_string(),
        group_coordinator: None,
        track: None,
    }
}

fn playlist(alias: &str, name: &str) -> Playlist {
    Playlist { alias: alias.to_string(), favorite_name: name.to_string() }
}

fn key(c: char) -> KeyPress {
    KeyPress { code: KeyCode::Char(c), ctrl: false }
}

fn press(code: KeyCode) -> KeyPress {
    KeyPress { code, ctrl: false }
}

fn sample() -> App {
    let mut app = App::new();
    app.speakers = vec![
        speaker("Kitchen", Some("kitchen"), 30, "PLAYING"),
        speaker("Den", None, 98, "PAUSED_PLAYBACK"),
    ];
    app.playlists = vec![playlist("altwave", "Alt Wave"), playlist("jazz", "Jazz Classics")];
    app
}

fn send(request: Request) -> Action {
    Action::Send { request, on_ok: None, on_err: None }
}

#[test]
fn play_command_matches_name_and_records() {
    let mut app = sample();
    let acts = execute_command(&mut app, "play CLASSICS", 1_000);
    assert_eq!(
        acts,
        vec![
            send(Request::Play { speaker: "kitchen".to_string(), playlist: "jazz".to_string() }),
            Action::RecordPlay("jazz".to_string()),
        ]
    );
    assert_eq!(app.status_message.as_deref(), Some("Playing jazz on kitchen"));
    assert_eq!(app.status_until, Some(4_000));
}

#[test]
fn play_command_without_match_says_not_found() {
    let mut app = sample();
    let acts = execute_command(&mut app, "play polka", 0);
    assert!(acts.is_empty());
    assert_eq!(
        app.status_message.as_deref(),
        Some("Not all those who wander are found in this network.")
    );
}

#[test]
fn volume_command_targets_and_mirrors() {
    let mut app = sample();
    let acts = execute_command(&mut app, "vol all 40", 0);
    assert_eq!(
        acts,
        vec![
            send(Request::SetVolume { speaker: "kitchen".to_string(), volume: 40 }),
            send(Request::SetVolume { speaker: "Den".to_string(), volume: 40 }),
        ]
    );
    assert_eq!(app.speakers[0].volume, 40);
    assert_eq!(app.speakers[1].volume, 40);
    assert_eq!(app.status_message.as_deref(), Some("Volume set to 40 on all speakers."));

    let acts = execute_command(&mut app, "vol Den 100", 0);
    assert_eq!(acts, vec![send(Request::SetVolume { speaker: "Den".to_string(), volume: 100 })]);
    assert_eq!(app.speakers[0].volume, 40);
    assert_eq!(app.speakers[1].volume, 100);
    assert_eq!(app.status_message.as_deref(), Some("You shall not pass... 100."));

    execute_command(&mut app, "vol 7", 0);
    assert_eq!(app.speakers[0].volume, 7);
    assert_eq!(app.status_message.as_deref(), Some("Volume set to 7."));
}

#[test]
fn track_commands_carry_outcome_notices() {
    let mut app = sample();
    let acts = execute_command(&mut app, "next", 0);
    assert_eq!(acts.len(), 1);
    settle(&mut app, &acts[0], false, 0);
    assert_eq!(
        app.status_message.as_deref(),
        Some("The road goes ever on \u{2014} but not to the next track.")
    );
    assert_eq!(app.status_until, Some(3_000));
    let acts = execute_command(&mut app, "prev", 0);
    settle(&mut app, &acts[0], true, 0);
    assert_eq!(app.status_message.as_deref(), Some("Back to the beginning."));
}

#[test]
fn sleep_commands_arm_and_disarm() {
    let mut app = sample();
    let acts = execute_command(&mut app, "sleep 2", 5_000);
    assert!(acts.is_empty());
    assert_eq!(app.sleep_until, Some(125_000));
    execute_command(&mut app, "sleep cancel", 5_000);
    assert_eq!(app.sleep_until, None);
}

#[test]
fn unknown_and_empty_commands_ask_again() {
    for line in ["blorp", "", "vol"] {
        let mut app = sample();
        let acts = execute_command(&mut app, line, 0);
        assert!(acts.is_empty());
        assert_eq!(app.status_message.as_deref(), Some("Speak, friend \u{2014} but speak clearly."));
    }
}

#[test]
fn group_and_reload_commands() {
    let mut app = sample();
    assert_eq!(execute_command(&mut app, "group all", 0), vec![send(Request::GroupAll)]);
    assert_eq!(execute_command(&mut app, "ungroup", 0), vec![send(Request::UngroupAll)]);
    assert_eq!(
        execute_command(&mut app, "reload", 0),
        vec![send(Request::Reload), Action::RefreshPlaylists]
    );
}

#[test]
fn command_line_editing_and_completion() {
    let mut app = sample();
    handle_key(&mut app, key(':'), 0);
    assert_eq!(app.command_input.as_deref(), Some(""));
    for c in "play al".chars() {
        handle_key(&mut app, key(c), 0);
    }
    handle_key(&mut app, press(KeyCode::Tab), 0);
    assert_eq!(app.command_input.as_deref(), Some("play alt Wave"));
    handle_key(&mut app, press(KeyCode::Backspace), 0);
    assert_eq!(app.command_input.as_deref(), Some("play alt Wav"));
    handle_key(&mut app, KeyPress { code: KeyCode::Char('x'), ctrl: true }, 0);
    assert_eq!(app.command_input.as_deref(), Some("play alt Wav"));
    let acts = handle_key(&mut app, press(KeyCode::Enter), 0);
    assert_eq!(app.command_input, None);
    assert_eq!(acts.len(), 2);
}

#[test]
fn tab_replaces_query_on_inner_match() {
    let mut app = sample();
    app.command_input = Some("p class".to_string());
    handle_key(&mut app, press(KeyCode::Tab), 0);
    assert_eq!(app.command_input.as_deref(), Some("p Jazz Classics"));
}

#[test]
fn backspace_on_empty_command_line_closes_it() {
    let mut app = sample();
    app.command_input = Some(String::new());
    handle_key(&mut app, press(KeyCode::Backspace), 0);
    assert_eq!(app.command_input, None);
}

#[test]
fn volume_prompt_takes_three_digits_and_clamps() {
    let mut app = sample();
    handle_key(&mut app, key('v'), 0);
    for c in ['2', 'x', '5', '5', '9'] {
        handle_key(&mut app, key(c), 0);
    }
    assert_eq!(app.volume_input.as_deref(), Some("255"));
    let acts = handle_key(&mut app, press(KeyCode::Enter), 0);
    assert_eq!(acts, vec![send(Request::SetVolume { speaker: "kitchen".to_string(), volume: 100 })]);
    assert_eq!(app.volume_input, None);
    handle_key(&mut app, key('v'), 0);
    let acts = handle_key(&mut app, press(KeyCode::Enter), 0);
    assert!(acts.is_empty());
}

#[test]
fn command_line_closes_volume_prompt() {
    let mut app = sample();
    handle_key(&mut app, key('v'), 0);
    assert_eq!(app.volume_input.as_deref(), Some(""));
    handle_key(&mut app, press(KeyCode::Esc), 0);
    assert!(app.volume_input.is_none());
    handle_key(&mut app, key(':'), 0);
    assert!(app.volume_input.is_none());
    assert!(app.command_input.is_some());
}

#[test]
fn normal_keys_drive_speakers() {
    let mut app = sample();
    assert_eq!(handle_key(&mut app, key(' '), 0), vec![send(Request::Pause { speaker: "kitchen".to_string() })]);
    assert_eq!(
        handle_key(&mut app, key('+'), 0),
        vec![send(Request::SetVolume { speaker: "kitchen".to_string(), volume: 35 })]
    );
    handle_key(&mut app, press(KeyCode::Down), 0);
    assert_eq!(app.speaker_index, 1);
    assert_eq!(handle_key(&mut app, key(' '), 0), vec![send(Request::Resume { speaker: "Den".to_string() })]);
    assert_eq!(
        handle_key(&mut app, key('='), 0),
        vec![send(Request::SetVolume { speaker: "Den".to_string(), volume: 100 })]
    );
    app.speakers[1].volume = 3;
    assert_eq!(
        handle_key(&mut app, key('-'), 0),
        vec![send(Request::SetVolume { speaker: "Den".to_string(), volume: 0 })]
    );
    assert_eq!(handle_key(&mut app, key('g'), 0), vec![send(Request::GroupAll)]);
    let acts = handle_key(&mut app, key('n'), 0);
    assert_eq!(
        acts,
        vec![Action::Send {
            request: Request::Next { speaker: "Den".to_string() },
            on_ok: Some(Notice { text: "Onward, into shadow.".to_string(), secs: 2 }),
            on_err: Some(Notice {
                text: "The road goes ever on \u{2014} but not to the next track.".to_string(),
                secs: 3
            }),
        }]
    );
}

#[test]
fn enter_plays_selected_playlist() {
    let mut app = sample();
    app.playlist_index = 1;
    let acts = handle_key(&mut app, press(KeyCode::Enter), 10);
    assert_eq!(
        acts,
        vec![
            send(Request::Play { speaker: "kitchen".to_string(), playlist: "jazz".to_string() }),
            Action::RecordPlay("jazz".to_string()),
        ]
    );
    assert_eq!(app.status_message.as_deref(), Some("Playing jazz on kitchen"));
}

#[test]
fn quit_help_and_panels() {
    let mut app = sample();
    handle_key(&mut app, key('?'), 0);
    assert!(app.help_open);
    handle_key(&mut app, press(KeyCode::Esc), 0);
    assert!(!app.help_open);
    handle_key(&mut app, press(KeyCode::Tab), 0);
    handle_key(&mut app, key('j'), 0);
    assert_eq!(app.playlist_index, 1);
    handle_key(&mut app, key('k'), 0);
    assert_eq!(app.playlist_index, 0);
    handle_key(&mut app, key('q'), 0);
    assert!(app.should_quit);
}

#[test]
fn sleep_expiry_pauses_everyone() {
    let mut app = sample();
    app.sleep_until = Some(50);
    assert!(sleep_tick(&mut app, 49).is_empty());
    assert_eq!(app.sleep_until, Some(50));
    let acts = sleep_tick(&mut app, 50);
    assert_eq!(
        acts,
        vec![
            send(Request::Pause { speaker: "kitchen".to_string() }),
            send(Request::Pause { speaker: "Den".to_string() }),
        ]
    );
    assert_eq!(app.sleep_until, None);
    assert_eq!(app.status_message.as_deref(), Some("The Fellowship rests. All speakers paused."));
}

#[test]
fn session_start_and_catalog() {
    let mut app = App::new();
    open_session(&mut app, None, 0);
    assert_eq!(app.status_message.as_deref(), Some("The gates of Moria are sealed. Start sonosd."));
    assert_eq!(app.status_until, Some(3_600_000));
    open_session(&mut app, Some(vec![speaker("a", None, 1, "STOPPED")]), 0);
    assert_eq!(app.speakers.len(), 1);
    refresh_catalog(
        &mut app,
        Some(vec![playlist("jazz", "Jazz")]),
        Some(vec!["JAZZ".to_string(), "Lofi".to_string(), "Lofi".to_string()]),
    );
    let got: Vec<(&str, &str)> =
        app.playlists.iter().map(|p| (p.alias.as_str(), p.favorite_name.as_str())).collect();
    assert_eq!(got, vec![("jazz", "Jazz"), ("Lofi", "Lofi"), ("Lofi", "Lofi")]);
    refresh_catalog(&mut app, None, None);
    assert_eq!(app.playlists.len(), 3);
}

#[test]
fn merge_skips_titles_already_shown() {
    let mut ps = vec![playlist("a", "Morning Mix")];
    merge_favorites(&mut ps, &["morning mix".to_string(), "Evening".to_string()]);
    assert_eq!(ps.len(), 2);
    assert_eq!(ps[1].alias, "Evening");
}

#[test]
fn sort_mode_popularity_ranks() {
    let mut app = App::new();
    app.playlists = vec![playlist("b", "B"), playlist("a", "A")];
    apply_sort_mode(&mut app, "alpha", &[], 0);
    assert_eq!(app.playlists[0].alias, "b");
    let entries = vec![PlayEntry { playlist: "b".to_string(), played_at: 999 }];
    apply_sort_mode(&mut app, "popularity", &entries, 1_000_000);
    assert_eq!(app.playlists[0].alias, "b");
    apply_sort_mode(&mut app, "popularity", &[], 1_000_000);
    assert_eq!(app.playlists[0].alias, "a");
}

#[test]
fn volume_prompt_clamps_levels_above_255() {
    let mut app = sample();
    app.volume_input = Some("300".to_string());
    let acts = handle_key(&mut app, press(KeyCode::Enter), 0);
    assert_eq!(acts, vec![send(Request::SetVolume { speaker: "kitchen".to_string(), volume: 100 })]);
    app.volume_input = Some("999".to_string());
    let acts = handle_key(&mut app, press(KeyCode::Enter), 0);
    assert_eq!(acts, vec![send(Request::SetVolume { speaker: "kitchen".to_string(), volume: 100 })]);
    app.volume_input = Some("042".to_string());
    let acts = handle_key(&mut app, press(KeyCode::Enter), 0);
    assert_eq!(acts, vec![send(Request::SetVolume { speaker: "kitchen".to_string(), volume: 42 })]);
}

#[test]
fn playlist_match_on_folded_values() {
    let aliases = vec!["altwave".to_string(), "jazz".to_string()];
    let names = vec!["alt wave".to_string(), "jazz classics".to_string()];
    assert_eq!(find_folded("class", &aliases, &names), Some(1));
    assert_eq!(find_folded("wave", &aliases, &names), Some(0));
    assert_eq!(find_folded("polka", &aliases, &names), None);
    assert_eq!(find_folded("", &aliases, &names), Some(0));
}

#[test]
fn volume_prompt_clamps_any_number() {
    for (buf, level) in [("99999999999999999999999", 100u8), ("4294967296", 100), ("+7", 7), ("101", 100), ("100", 100), ("0", 0)] {
        let mut app = sample();
        app.volume_input = Some(buf.to_string());
        let acts = handle_key(&mut app, press(KeyCode::Enter), 0);
        assert_eq!(acts, vec![send(Request::SetVolume { speaker: "kitchen".to_string(), volume: level })]);
    }
    for buf in ["", "+", "12a", "-3"] {
        let mut app = sample();
        app.volume_input = Some(buf.to_string());
        assert!(handle_key(&mut app, press(KeyCode::Enter), 0).is_empty());
        assert_eq!(app.volume_input, None);
    }
}
