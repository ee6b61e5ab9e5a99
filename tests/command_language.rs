use sono_palantir::command::{autocomplete, complete_among, parse, suggest, Command, Completion};

#[test]
fn test_parse_play() {
    assert_eq!(parse("play altwave"), Some(Command::Play("altwave".to_string())));
}

#[test]
fn test_parse_volume() {
    assert_eq!(parse("vol 40"), Some(Command::Volume(None, 40)));
}

#[test]
fn test_parse_group_all() {
    assert_eq!(parse("group all"), Some(Command::GroupAll));
}

#[test]
fn test_parse_sleep() {
    assert_eq!(parse("sleep 30"), Some(Command::Sleep(30)));
}

#[test]
fn test_parse_sleep_cancel() {
    assert_eq!(parse("sleep cancel"), Some(Command::SleepCancel));
    assert_eq!(parse("sleep 0"), Some(Command::SleepCancel));
}

#[test]
fn test_parse_reload() {
    assert_eq!(parse("reload"), Some(Command::Reload));
}

#[test]
fn test_parse_empty_returns_none() {
    assert_eq!(parse(""), None);
    assert_eq!(parse("   "), None);
}

#[test]
fn test_parse_unknown() {
    assert!(matches!(parse("blorp"), Some(Command::Unknown(_))));
}

#[test]
fn test_autocomplete_command_name() {
    assert_eq!(autocomplete("sl", &[]), Some("eep".to_string()));
    assert_eq!(autocomplete("re", &[]), Some("load".to_string()));
    assert_eq!(autocomplete("reload", &[]), None); // exact match
}

#[test]
fn test_autocomplete_play_fuzzy() {
    let names = vec!["Alt Wave".to_string(), "Jazz Classics".to_string()];
    let result = autocomplete("play alt", &names);
    assert_eq!(result, Some(" Wave".to_string()));
}

#[test]
fn test_autocomplete_no_match() {
    let names = vec!["Alt Wave".to_string()];
    assert_eq!(autocomplete("play xyz", &names), None);
}

#[test]
fn test_autocomplete_empty_input() {
    assert_eq!(autocomplete("", &[]), None);
}

#[test]
fn test_parse_vol_no_arg_returns_none() {
    assert_eq!(parse("vol"), None);
}

#[test]
fn test_parse_group_no_arg_returns_unknown() {
    assert!(matches!(parse("group"), Some(Command::Unknown(_))));
}

#[test]
fn test_parse_play_alias_p() {
    assert_eq!(parse("p altwave"), Some(Command::Play("altwave".to_string())));
}

#[test]
fn test_autocomplete_p_alias_plays_fuzzy() {
    let names = vec!["Alt Wave".to_string()];
    let result = autocomplete("p alt", &names);
    // "p alt" has a space so it enters the play-fuzzy path
    assert_eq!(result, Some(" Wave".to_string()));
}

#[test]
fn parse_examples_exactly() {
    assert_eq!(parse("blorp"), Some(Command::Unknown("blorp".to_string())));
    assert_eq!(parse("group"), Some(Command::Unknown("group".to_string())));
    assert_eq!(parse("group none"), Some(Command::Unknown("group none".to_string())));
    assert_eq!(parse("  play  Alt Wave  "), Some(Command::Play("Alt Wave".to_string())));
    assert_eq!(parse("play"), Some(Command::Play(String::new())));
    assert_eq!(parse("ungroup"), Some(Command::Ungroup));
    assert_eq!(parse("n"), Some(Command::Next));
    assert_eq!(parse("next"), Some(Command::Next));
    assert_eq!(parse("prev"), Some(Command::Prev));
    assert_eq!(parse("previous"), Some(Command::Prev));
}

#[test]
fn parse_volume_targets_and_limits() {
    assert_eq!(parse("volume 0"), Some(Command::Volume(None, 0)));
    assert_eq!(parse("vol 255"), Some(Command::Volume(None, 255)));
    assert_eq!(parse("vol +7"), Some(Command::Volume(None, 7)));
    assert_eq!(parse("vol 256"), None);
    assert_eq!(parse("vol loud"), None);
    assert_eq!(parse("vol all 30"), Some(Command::Volume(Some("all".to_string()), 30)));
    assert_eq!(
        parse("vol Family Room 12"),
        Some(Command::Volume(Some("Family Room".to_string()), 12))
    );
    assert_eq!(parse("vol kitchen x"), None);
}

#[test]
fn parse_sleep_rejects_words() {
    assert_eq!(parse("sleep soon"), None);
    assert_eq!(parse("sleep"), None);
    assert_eq!(parse("sleep 4294967295"), Some(Command::Sleep(4294967295)));
    assert_eq!(parse("sleep 4294967296"), None);
}

#[test]
fn autocomplete_verbs_in_order() {
    assert_eq!(autocomplete("p", &[]), Some("lay".to_string()));
    assert_eq!(autocomplete("g", &[]), Some("roup all".to_string()));
    assert_eq!(autocomplete("z", &[]), None);
    assert_eq!(autocomplete("vol 3", &[]), None);
}

#[test]
fn autocomplete_ignores_case_and_keeps_name_case() {
    let names = vec!["Jazz Classics".to_string()];
    assert_eq!(autocomplete("play JAZZ c", &names), Some("lassics".to_string()));
    assert_eq!(autocomplete("play jazz classics", &names), Some(" \u{2192} Jazz Classics".to_string()));
}

#[test]
fn autocomplete_offers_replacement_on_inner_match() {
    let names = vec!["Alt Wave".to_string(), "Jazz Classics".to_string()];
    assert_eq!(autocomplete("play wave", &names), Some(" \u{2192} Alt Wave".to_string()));
    assert_eq!(
        suggest("play class", &names),
        Some(Completion::Replacement("Jazz Classics".to_string()))
    );
    assert_eq!(suggest("play al", &names), Some(Completion::Suffix("t Wave".to_string())));
    assert_eq!(suggest("play ", &names), None);
}

#[test]
fn autocomplete_counts_characters_not_bytes() {
    let names = vec!["\u{e9}t\u{e9} Mix".to_string()];
    assert_eq!(autocomplete("play \u{c9}t", &names), Some("\u{e9} Mix".to_string()));
}

#[test]
fn completion_among_folded_names() {
    let names = vec!["Alt Wave".to_string(), "Jazz Classics".to_string()];
    let folded = vec!["alt wave".to_string(), "jazz classics".to_string()];
    let q: Vec<char> = "alt".chars().collect();
    assert_eq!(complete_among(&q, &names, &folded), Some(Completion::Suffix(" Wave".to_string())));
    let q: Vec<char> = "class".chars().collect();
    assert_eq!(
        complete_among(&q, &names, &folded),
        Some(Completion::Replacement("Jazz Classics".to_string()))
    );
    let q: Vec<char> = "alt wave".chars().collect();
    assert_eq!(
        complete_among(&q, &names, &folded),
        Some(Completion::Replacement("Alt Wave".to_string()))
    );
    let q: Vec<char> = "xyz".chars().collect();
    assert_eq!(complete_among(&q, &names, &folded), None);
}

#[test]
fn completion_follows_the_folded_forms_given() {
    let names = vec!["ABCDEF".to_string()];
    let folded = vec!["xyzw".to_string()];
    let q: Vec<char> = "xy".chars().collect();
    assert_eq!(complete_among(&q, &names, &folded), Some(Completion::Suffix("CDEF".to_string())));
}
