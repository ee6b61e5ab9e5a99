//! The decisions of the control loop: what a key press or a typed command
//! does to the state, and which requests to the speaker service follow.
//! The loop itself sends the requests and reports their outcomes back.

use vstd::prelude::*;
use vstd::string::*;
use crate::app::{has_follower, millis_after, App};
use crate::command::{
    capped_value, parse, parse_spec, read_capped, suggest, suggest_spec, Command, CommandSpec,
    text_views, Completion, CompletionSpec,
};
use crate::model::{
    favorite_additions, id_of, merge_favorites, playlist_views, speaker_id_of, Playlist, Speaker,
};
use crate::history::{
    cutoff, popularity_sort_from, ranked, stable_arrangement, PlayEntry, RANK_WINDOW_SECS,
};
use crate::command::{lower_of, lowercase};
use crate::text::{
    chars_of, decimal_text, find_char, first_index, occurs, occurs_in, pop_char, push_char,
    push_decimal, same_text, string_of_range,
};

verus! {

/// A status message and how many seconds it shows.
#[derive(Debug, PartialEq)]
pub struct Notice {
    pub text: String,
    pub secs: u64,
}

/// A key as the control loop reads it.
#[derive(Debug, Clone, Copy, PartialEq, Eq, Structural)]
pub enum KeyCode {
    Char(char),
    Backspace,
    Tab,
    Enter,
    Esc,
    Up,
    Down,
    Other,
}

/// A key press, with whether Control was held.
#[derive(Debug, Clone, Copy, PartialEq, Eq, Structural)]
pub struct KeyPress {
    pub code: KeyCode,
    pub ctrl: bool,
}

/// A request to the speaker service.
#[derive(Debug, PartialEq)]
pub enum Request {
    Play { speaker: String, playlist: String },
    Pause { speaker: String },
    Resume { speaker: String },
    SetVolume { speaker: String, volume: u8 },
    Next { speaker: String },
    Previous { speaker: String },
    GroupAll,
    UngroupAll,
    Reload,
}

/// Work for the control loop.
#[derive(Debug, PartialEq)]
pub enum Action {
    /// Send `request`; then show `on_ok` if it succeeded, `on_err` if not,
    /// where given.
    Send { request: Request, on_ok: Option<Notice>, on_err: Option<Notice> },
    /// Add a play of this playlist alias to the history.
    RecordPlay(String),
    /// Fetch the playlists and favorites again.
    RefreshPlaylists,
}

pub enum RequestSpec {
    Play(Seq<char>, Seq<char>),
    Pause(Seq<char>),
    Resume(Seq<char>),
    SetVolume(Seq<char>, u8),
    Next(Seq<char>),
    Previous(Seq<char>),
    GroupAll,
    UngroupAll,
    Reload,
}

pub enum ActionSpec {
    Send(RequestSpec, Option<(Seq<char>, u64)>, Option<(Seq<char>, u64)>),
    RecordPlay(Seq<char>),
    RefreshPlaylists,
}

impl View for Request {
    type V = RequestSpec;

    open spec fn view(&self) -> RequestSpec {
        match self {
            Request::Play { speaker, playlist } => RequestSpec::Play(speaker@, playlist@),
            Request::Pause { speaker } => RequestSpec::Pause(speaker@),
            Request::Resume { speaker } => RequestSpec::Resume(speaker@),
            Request::SetVolume { speaker, volume } => RequestSpec::SetVolume(speaker@, *volume),
            Request::Next { speaker } => RequestSpec::Next(speaker@),
            Request::Previous { speaker } => RequestSpec::Previous(speaker@),
            Request::GroupAll => RequestSpec::GroupAll,
            Request::UngroupAll => RequestSpec::UngroupAll,
            Request::Reload => RequestSpec::Reload,
        }
    }
}

pub open spec fn notice_view(n: Option<Notice>) -> Option<(Seq<char>, u64)> {
    match n {
        Some(x) => Some((x.text@, x.secs)),
        None => None,
    }
}

impl View for Action {
    type V = ActionSpec;

    open spec fn view(&self) -> ActionSpec {
        match self {
            Action::Send { request, on_ok, on_err } => ActionSpec::Send(
                request@,
                notice_view(*on_ok),
                notice_view(*on_err),
            ),
            Action::RecordPlay(a) => ActionSpec::RecordPlay(a@),
            Action::RefreshPlaylists => ActionSpec::RefreshPlaylists,
        }
    }
}

/// The actions of `s` as values.
pub open spec fn action_views(s: Seq<Action>) -> Seq<ActionSpec> {
    s.map_values(|a: Action| a@)
}

/// A request sent with no status to follow.
pub open spec fn plain(r: RequestSpec) -> ActionSpec {
    ActionSpec::Send(r, None, None)
}

/// `b` is `a` with the status message `text` showing for `secs` seconds from `now`.
pub open spec fn with_status(a: App, b: App, text: Seq<char>, secs: u64, now: u64) -> bool {
    &&& b == (App { status_message: b.status_message, status_until: b.status_until, ..a })
    &&& b.status_message matches Some(m) && m@ == text
    &&& b.status_until == Some(millis_after(now, secs))
}

/// Index of the first place where the folded alias in `aliases` or the
/// folded name in `names` holds the folded query `q`.
pub open spec fn first_folded_match(q: Seq<char>, aliases: Seq<Seq<char>>, names: Seq<Seq<char>>) -> Option<int>
    decreases aliases.len(),
{
    if aliases.len() == 0 || names.len() == 0 {
        None
    } else if occurs_in(q, aliases[0]) || occurs_in(q, names[0]) {
        Some(0)
    } else {
        match first_folded_match(q, aliases.drop_first(), names.drop_first()) {
            Some(i) => Some(i + 1),
            None => None,
        }
    }
}

/// The lower-case form of each playlist's alias.
pub open spec fn folded_aliases(ps: Seq<Playlist>) -> Seq<Seq<char>> {
    ps.map_values(|p: Playlist| lower_of(p.alias@))
}

/// The lower-case form of each playlist's name.
pub open spec fn folded_titles(ps: Seq<Playlist>) -> Seq<Seq<char>> {
    ps.map_values(|p: Playlist| lower_of(p.favorite_name@))
}

/// Index of the first playlist whose alias or name holds `name`, ignoring case.
pub open spec fn first_playlist_matching(ps: Seq<Playlist>, name: Seq<char>) -> Option<int> {
    first_folded_match(lower_of(name), folded_aliases(ps), folded_titles(ps))
}

/// The ids that a `vol` command addresses.
pub open spec fn volume_targets(a: App, target: Option<Seq<char>>) -> Seq<Seq<char>> {
    match target {
        None => if a.speaker_index < a.speakers@.len() {
            seq![speaker_id_of(a.speakers@[a.speaker_index as int])]
        } else {
            Seq::empty()
        },
        Some(t) => if t == "all"@ {
            a.speakers@.map_values(|s: Speaker| speaker_id_of(s))
        } else {
            seq![t]
        },
    }
}

/// The status shown after setting the level `v` on `target`.
pub open spec fn volume_text(target: Option<Seq<char>>, v: u8) -> Seq<char> {
    if v == 100 {
        "You shall not pass... 100."@
    } else {
        match target {
            None => "Volume set to "@ + decimal_text(v as nat) + "."@,
            Some(t) => if t == "all"@ {
                "Volume set to "@ + decimal_text(v as nat) + " on all speakers."@
            } else {
                "Volume set to "@ + decimal_text(v as nat) + " on "@ + t + "."@
            },
        }
    }
}

/// `b`'s speakers are `a`'s, with level `v` on those addressed by `ids`.
pub open spec fn volumes_mirrored(a: Seq<Speaker>, b: Seq<Speaker>, ids: Seq<Seq<char>>, v: u8) -> bool {
    &&& b.len() == a.len()
    &&& forall|i: int|
        0 <= i < a.len() ==> #[trigger] b[i] == if ids.contains(speaker_id_of(a[i])) {
            Speaker { volume: v, ..a[i] }
        } else {
            a[i]
        }
}

/// What a typed command does: `a` becomes `b` and `acts` are to be done.
pub open spec fn command_effect(
    a: App,
    b: App,
    acts: Seq<ActionSpec>,
    cmd: Option<CommandSpec>,
    now: u64,
) -> bool {
    let selected = a.speaker_index < a.speakers@.len();
    let id = speaker_id_of(a.speakers@[a.speaker_index as int]);
    match cmd {
        Some(CommandSpec::Play(name)) => if !selected {
            b == a && acts.len() == 0
        } else {
            match first_playlist_matching(a.playlists@, name) {
                Some(i) => {
                    let alias = a.playlists@[i].alias@;
                    &&& acts == seq![
                        plain(RequestSpec::Play(id, alias)),
                        ActionSpec::RecordPlay(alias),
                    ]
                    &&& with_status(a, b, "Playing "@ + alias + " on "@ + id, 3, now)
                },
                None => acts.len() == 0 && with_status(
                    a,
                    b,
                    "Not all those who wander are found in this network."@,
                    4,
                    now,
                ),
            }
        },
        Some(CommandSpec::Volume(target, v)) => {
            let ids = volume_targets(a, target);
            if ids.len() == 0 {
                b == a && acts.len() == 0
            } else {
                &&& acts == ids.map_values(|t: Seq<char>| plain(RequestSpec::SetVolume(t, v)))
                &&& volumes_mirrored(a.speakers@, b.speakers@, ids, v)
                &&& with_status(
                    App { speakers: b.speakers, ..a },
                    b,
                    volume_text(target, v),
                    2,
                    now,
                )
            }
        },
        Some(CommandSpec::GroupAll) => acts == seq![plain(RequestSpec::GroupAll)] && with_status(
            a,
            b,
            "The fellowship is assembled."@,
            3,
            now,
        ),
        Some(CommandSpec::Ungroup) => acts == seq![plain(RequestSpec::UngroupAll)] && with_status(
            a,
            b,
            "The company is scattered to the winds."@,
            3,
            now,
        ),
        Some(CommandSpec::Next) => b == a && if selected {
            acts == seq![
                ActionSpec::Send(
                    RequestSpec::Next(id),
                    Some(("Onward, into shadow."@, 2)),
                    Some(("The road goes ever on \u{2014} but not to the next track."@, 3)),
                ),
            ]
        } else {
            acts.len() == 0
        },
        Some(CommandSpec::Prev) => b == a && if selected {
            acts == seq![
                ActionSpec::Send(
                    RequestSpec::Previous(id),
                    Some(("Back to the beginning."@, 2)),
                    Some(("The road goes ever on \u{2014} but not to the previous track."@, 3)),
                ),
            ]
        } else {
            acts.len() == 0
        },
        Some(CommandSpec::Sleep(m)) => acts.len() == 0 && b == (App {
            sleep_until: Some(millis_after(now, (m * 60) as u64)),
            ..a
        }),
        Some(CommandSpec::SleepCancel) => acts.len() == 0 && with_status(
            App { sleep_until: None, ..a },
            b,
            "The Palantir's dream is dispelled \u{2014} sleep cancelled."@,
            3,
            now,
        ),
        Some(CommandSpec::Reload) => acts == seq![
            plain(RequestSpec::Reload),
            ActionSpec::RefreshPlaylists,
        ] && with_status(a, b, "The scrolls are refreshed. Reloaded config.yaml."@, 3, now),
        _ => acts.len() == 0 && with_status(a, b, "Speak, friend \u{2014} but speak clearly."@, 3, now),
    }
}

fn plain_send(request: Request) -> (r: Action)
    ensures
        r@ == plain(request@),
{
    Action::Send { request, on_ok: None, on_err: None }
}

fn notice(text: &str, secs: u64) -> (r: Option<Notice>)
    ensures
        notice_view(r) == Some((text@, secs)),
{
    Some(Notice { text: text.to_owned(), secs })
}

/// Index of the first place where the folded alias in `aliases` or the
/// folded name in `names` holds the folded query `q`.
pub fn find_folded(q: &str, aliases: &[String], names: &[String]) -> (r: Option<usize>)
    requires
        aliases@.len() == names@.len(),
    ensures
        match r {
            Some(j) => j < aliases@.len() && first_folded_match(q@, text_views(aliases@), text_views(names@))
                == Some(j as int),
            None => first_folded_match(q@, text_views(aliases@), text_views(names@)) is None,
        },
{
    let ghost av = text_views(aliases@);
    let ghost nv = text_views(names@);
    let qv = chars_of(q);
    let mut i: usize = 0;
    assert(av.skip(0) =~= av);
    assert(nv.skip(0) =~= nv);
    while i < aliases.len()
        invariant
            i <= aliases@.len() == names@.len(),
            av == text_views(aliases@),
            nv == text_views(names@),
            qv@ == q@,
            first_folded_match(q@, av, nv) == match first_folded_match(q@, av.skip(i as int), nv.skip(i as int)) {
                Some(k) => Some(k + i),
                None => None,
            },
        decreases aliases.len() - i,
    {
        let a = chars_of(aliases[i].as_str());
        let f = chars_of(names[i].as_str());
        assert(av.skip(i as int)[0] == av[i as int]);
        assert(nv.skip(i as int)[0] == nv[i as int]);
        if occurs(a.as_slice(), qv.as_slice()) || occurs(f.as_slice(), qv.as_slice()) {
            return Some(i);
        }
        assert(av.skip(i as int).drop_first() =~= av.skip(i + 1));
        assert(nv.skip(i as int).drop_first() =~= nv.skip(i + 1));
        i += 1;
    }
    None
}

/// Index of the first playlist whose alias or name holds `name`, ignoring case.
fn find_playlist(ps: &Vec<Playlist>, name: &str) -> (r: Option<usize>)
    ensures
        match r {
            Some(j) => j < ps@.len() && first_playlist_matching(ps@, name@) == Some(j as int),
            None => first_playlist_matching(ps@, name@) is None,
        },
{
    let q = lowercase(name);
    let mut aliases: Vec<String> = Vec::new();
    let mut titles: Vec<String> = Vec::new();
    let mut i: usize = 0;
    while i < ps.len()
        invariant
            i <= ps@.len(),
            text_views(aliases@) == folded_aliases(ps@.take(i as int)),
            text_views(titles@) == folded_titles(ps@.take(i as int)),
        decreases ps.len() - i,
    {
        let ghost a0 = aliases@;
        let ghost t0 = titles@;
        aliases.push(lowercase(ps[i].alias.as_str()));
        titles.push(lowercase(ps[i].favorite_name.as_str()));
        assert(text_views(aliases@) =~= text_views(a0).push(lower_of(ps@[i as int].alias@)));
        assert(text_views(titles@) =~= text_views(t0).push(lower_of(ps@[i as int].favorite_name@)));
        assert(folded_aliases(ps@.take(i + 1)) =~= folded_aliases(ps@.take(i as int)).push(
            lower_of(ps@[i as int].alias@),
        ));
        assert(folded_titles(ps@.take(i + 1)) =~= folded_titles(ps@.take(i as int)).push(
            lower_of(ps@[i as int].favorite_name@),
        ));
        i += 1;
    }
    assert(ps@.take(i as int) =~= ps@);
    find_folded(q.as_str(), aliases.as_slice(), titles.as_slice())
}

/// Whether `ids` holds `id`.
fn holds_id(ids: &Vec<String>, id: &str) -> (r: bool)
    ensures
        r == ids@.map_values(|s: String| s@).contains(id@),
{
    let ghost v = ids@.map_values(|s: String| s@);
    let mut i: usize = 0;
    while i < ids.len()
        invariant
            i <= ids@.len(),
            v == ids@.map_values(|s: String| s@),
            forall|k: int| 0 <= k < i ==> v[k] != id@,
        decreases ids.len() - i,
    {
        if same_text(ids[i].as_str(), id) {
            assert(v[i as int] == id@);
            return true;
        }
        i += 1;
    }
    false
}

/// The status text for setting level `v` on `target`.
fn volume_message(target: &Option<String>, v: u8) -> (r: String)
    ensures
        r@ == volume_text(
            match target {
                Some(t) => Some(t@),
                None => None,
            },
            v,
        ),
{
    if v == 100 {
        return String::from_str("You shall not pass... 100.");
    }
    let mut r = String::from_str("Volume set to ");
    push_decimal(&mut r, v as u64);
    match target {
        None => {
            r.append(".");
        },
        Some(t) => {
            if same_text(t.as_str(), "all") {
                r.append(" on all speakers.");
            } else {
                r.append(" on ");
                r.append(t.as_str());
                r.append(".");
            }
        },
    }
    r
}

/// Sets level `v` on every speaker addressed by `ids`.
fn mirror_volumes(speakers: &mut Vec<Speaker>, ids: &Vec<String>, v: u8)
    ensures
        volumes_mirrored(old(speakers)@, final(speakers)@, ids@.map_values(|s: String| s@), v),
{
    let ghost orig = speakers@;
    let mut i: usize = 0;
    while i < speakers.len()
        invariant
            i <= speakers@.len(),
            speakers@.len() == orig.len(),
            forall|k: int|
                0 <= k < i ==> #[trigger] speakers@[k] == if ids@.map_values(|s: String| s@).contains(
                    speaker_id_of(orig[k]),
                ) {
                    Speaker { volume: v, ..orig[k] }
                } else {
                    orig[k]
                },
            forall|k: int| i <= k < speakers@.len() ==> #[trigger] speakers@[k] == orig[k],
        decreases speakers.len() - i,
    {
        let id = id_of(&speakers[i]);
        if holds_id(ids, id.as_str()) {
            speakers[i].volume = v;
        }
        i += 1;
    }
}

/// The ids that a `vol` command addresses.
fn resolve_targets(app: &App, target: &Option<String>) -> (r: Vec<String>)
    ensures
        r@.map_values(|s: String| s@) == volume_targets(
            *app,
            match target {
                Some(t) => Some(t@),
                None => None,
            },
        ),
{
    let mut ids: Vec<String> = Vec::new();
    match target {
        None => {
            match app.speaker_id() {
                Some(id) => {
                    ids.push(id);
                },
                None => {},
            }
            assert(ids@.map_values(|s: String| s@) =~= volume_targets(*app, None));
        },
        Some(t) => {
            if same_text(t.as_str(), "all") {
                let mut i: usize = 0;
                while i < app.speakers.len()
                    invariant
                        i <= app.speakers@.len(),
                        ids@.map_values(|s: String| s@) == app.speakers@.take(i as int).map_values(
                            |s: Speaker| speaker_id_of(s),
                        ),
                    decreases app.speakers.len() - i,
                {
                    let ghost before = ids@;
                    let id = id_of(&app.speakers[i]);
                    ids.push(id);
                    assert(ids@.map_values(|s: String| s@) =~= before.map_values(|s: String| s@).push(
                        speaker_id_of(app.speakers@[i as int]),
                    ));
                    assert(app.speakers@.take(i + 1).map_values(|s: Speaker| speaker_id_of(s))
                        =~= app.speakers@.take(i as int).map_values(|s: Speaker| speaker_id_of(s)).push(
                        speaker_id_of(app.speakers@[i as int]),
                    ));
                    assert(ids@.map_values(|s: String| s@) =~= app.speakers@.take(i + 1).map_values(
                        |s: Speaker| speaker_id_of(s),
                    ));
                    i += 1;
                }
                assert(app.speakers@.take(i as int) =~= app.speakers@);
            } else {
                ids.push(t.clone());
                assert(ids@.map_values(|s: String| s@) =~= seq![t@]);
            }
        },
    }
    ids
}

/// Carries out a line typed on the command line at time `now`: changes the
/// state and returns the requests to send, in order.
pub fn execute_command(app: &mut App, input: &str, now: u64) -> (r: Vec<Action>)
    ensures
        command_effect(*old(app), *final(app), action_views(r@), parse_spec(input@), now),
{
    let parsed = parse(input);
    let mut acts: Vec<Action> = Vec::new();
    match parsed {
        Some(Command::Play(name)) => {
            let nm = name.as_str();
            let found = find_playlist(&app.playlists, nm);
            match app.speaker_id() {
                Some(id) => match found {
                    Some(i) => {
                        let alias = app.playlists[i].alias.clone();
                        let ghost av = alias@;
                        let ghost iv = id@;
                        let mut text = String::from_str("Playing ");
                        text.append(alias.as_str());
                        text.append(" on ");
                        text.append(id.as_str());
                        acts.push(plain_send(Request::Play { speaker: id, playlist: alias.clone() }));
                        acts.push(Action::RecordPlay(alias));
                        app.set_status_at(text.as_str(), 3, now);
                        assert(action_views(acts@) =~= seq![
                            plain(RequestSpec::Play(iv, av)),
                            ActionSpec::RecordPlay(av),
                        ]);
                    },
                    None => {
                        app.set_status_at("Not all those who wander are found in this network.", 4, now);
                    },
                },
                None => {},
            }
        },
        Some(Command::Volume(target, v)) => {
            let ids = resolve_targets(app, &target);
            if ids.len() > 0 {
                let mut i: usize = 0;
                while i < ids.len()
                    invariant
                        i <= ids@.len(),
                        action_views(acts@) == ids@.take(i as int).map_values(|s: String| s@).map_values(
                            |t: Seq<char>| plain(RequestSpec::SetVolume(t, v)),
                        ),
                    decreases ids.len() - i,
                {
                    let ghost before = acts@;
                    let a = plain_send(Request::SetVolume { speaker: ids[i].clone(), volume: v });
                    acts.push(a);
                    assert(action_views(acts@) =~= action_views(before).push(
                        plain(RequestSpec::SetVolume(ids@[i as int]@, v)),
                    ));
                    assert(ids@.take(i + 1).map_values(|s: String| s@).map_values(
                        |t: Seq<char>| plain(RequestSpec::SetVolume(t, v)),
                    ) =~= ids@.take(i as int).map_values(|s: String| s@).map_values(
                        |t: Seq<char>| plain(RequestSpec::SetVolume(t, v)),
                    ).push(plain(RequestSpec::SetVolume(ids@[i as int]@, v))));
                    assert(action_views(acts@) =~= ids@.take(i + 1).map_values(|s: String| s@).map_values(
                        |t: Seq<char>| plain(RequestSpec::SetVolume(t, v)),
                    ));
                    i += 1;
                }
                assert(ids@.take(i as int) =~= ids@);
                mirror_volumes(&mut app.speakers, &ids, v);
                let text = volume_message(&target, v);
                app.set_status_at(text.as_str(), 2, now);
            }
        },
        Some(Command::GroupAll) => {
            acts.push(plain_send(Request::GroupAll));
            app.set_status_at("The fellowship is assembled.", 3, now);
            assert(action_views(acts@) =~= seq![plain(RequestSpec::GroupAll)]);
        },
        Some(Command::Ungroup) => {
            acts.push(plain_send(Request::UngroupAll));
            app.set_status_at("The company is scattered to the winds.", 3, now);
            assert(action_views(acts@) =~= seq![plain(RequestSpec::UngroupAll)]);
        },
        Some(Command::Next) => {
            match app.speaker_id() {
                Some(id) => {
                    acts.push(Action::Send {
                        request: Request::Next { speaker: id },
                        on_ok: notice("Onward, into shadow.", 2),
                        on_err: notice("The road goes ever on \u{2014} but not to the next track.", 3),
                    });
                    assert(action_views(acts@) =~= seq![acts@[0]@]);
                },
                None => {},
            }
        },
        Some(Command::Prev) => {
            match app.speaker_id() {
                Some(id) => {
                    acts.push(Action::Send {
                        request: Request::Previous { speaker: id },
                        on_ok: notice("Back to the beginning.", 2),
                        on_err: notice("The road goes ever on \u{2014} but not to the previous track.", 3),
                    });
                    assert(action_views(acts@) =~= seq![acts@[0]@]);
                },
                None => {},
            }
        },
        Some(Command::Sleep(m)) => {
            let secs = m as u64 * 60;
            app.sleep_until = Some(
                if secs <= (u64::MAX - now) / 1000 {
                    now + secs * 1000
                } else {
                    u64::MAX
                },
            );
            assert(secs <= (u64::MAX - now) / 1000 <==> now + secs * 1000 <= u64::MAX) by (nonlinear_arith);
        },
        Some(Command::SleepCancel) => {
            app.sleep_until = None;
            app.set_status_at("The Palantir's dream is dispelled \u{2014} sleep cancelled.", 3, now);
        },
        Some(Command::Reload) => {
            acts.push(plain_send(Request::Reload));
            acts.push(Action::RefreshPlaylists);
            app.set_status_at("The scrolls are refreshed. Reloaded config.yaml.", 3, now);
            assert(action_views(acts@) =~= seq![plain(RequestSpec::Reload), ActionSpec::RefreshPlaylists]);
        },
        _ => {
            app.set_status_at("Speak, friend \u{2014} but speak clearly.", 3, now);
        },
    }
    proof {
        if acts@.len() == 0 {
            assert(action_views(acts@) =~= Seq::<ActionSpec>::empty());
        }
    }
    acts
}

/// The display names of the playlists, in order.
pub open spec fn names_of(ps: Seq<Playlist>) -> Seq<Seq<char>> {
    ps.map_values(|p: Playlist| p.favorite_name@)
}

/// The command line after Tab: the completion applied, if there is one.
pub open spec fn completed(buf: Seq<char>, names: Seq<Seq<char>>) -> Seq<char> {
    match suggest_spec(buf, names) {
        Some(CompletionSpec::Suffix(t)) => buf + t,
        Some(CompletionSpec::Replacement(n)) => match first_index(buf, ' ') {
            Some(k) => buf.take(k) + seq![' '] + n,
            None => buf,
        },
        None => buf,
    }
}

/// `b` is `a` with the command line holding `text`.
pub open spec fn with_command_line(a: App, b: App, text: Seq<char>) -> bool {
    b == (App { command_input: b.command_input, ..a }) && (b.command_input matches Some(t) && t@
        == text)
}

/// `b` is `a` with the volume prompt holding `text`.
pub open spec fn with_volume_line(a: App, b: App, text: Seq<char>) -> bool {
    b == (App { volume_input: b.volume_input, ..a }) && (b.volume_input matches Some(t) && t@
        == text)
}

/// A key pressed while the command line is open, holding `buf`.
pub open spec fn command_key_effect(
    a: App,
    b: App,
    acts: Seq<ActionSpec>,
    key: KeyPress,
    buf: Seq<char>,
    now: u64,
) -> bool {
    match key.code {
        KeyCode::Char(c) => if !key.ctrl {
            acts.len() == 0 && with_command_line(a, b, buf.push(c))
        } else {
            acts.len() == 0 && b == a
        },
        KeyCode::Backspace => acts.len() == 0 && if buf.len() == 0 {
            b == (App { command_input: None, ..a })
        } else {
            with_command_line(a, b, buf.drop_last())
        },
        KeyCode::Tab => acts.len() == 0 && with_command_line(
            a,
            b,
            completed(buf, names_of(a.playlists@)),
        ),
        KeyCode::Enter => command_effect(App { command_input: None, ..a }, b, acts, parse_spec(buf), now),
        KeyCode::Esc => acts.len() == 0 && b == (App { command_input: None, ..a }),
        _ => acts.len() == 0 && b == a,
    }
}

/// A key pressed while the volume prompt is open, holding `buf`. Enter
/// reads the digits as a level of any size, held at 100.
pub open spec fn volume_key_effect(a: App, b: App, acts: Seq<ActionSpec>, key: KeyPress, buf: Seq<char>) -> bool {
    match key.code {
        KeyCode::Char(c) => acts.len() == 0 && if '0' <= c && c <= '9' && buf.len() < 3 {
            with_volume_line(a, b, buf.push(c))
        } else {
            b == a
        },
        KeyCode::Backspace => acts.len() == 0 && with_volume_line(
            a,
            b,
            if buf.len() > 0 {
                buf.drop_last()
            } else {
                buf
            },
        ),
        KeyCode::Enter => b == (App { volume_input: None, ..a }) && match capped_value(buf, 100) {
            Some(v) => if a.speaker_index < a.speakers@.len() {
                acts == seq![
                    plain(
                        RequestSpec::SetVolume(speaker_id_of(a.speakers@[a.speaker_index as int]), v as u8),
                    ),
                ]
            } else {
                acts.len() == 0
            },
            None => acts.len() == 0,
        },
        KeyCode::Esc => acts.len() == 0 && b == (App { volume_input: None, ..a }),
        _ => acts.len() == 0 && b == a,
    }
}

/// The request that a key sends for the selected speaker `s`, if any.
pub open spec fn speaker_key_request(s: Speaker, c: char) -> Option<ActionSpec> {
    let id = speaker_id_of(s);
    if c == ' ' {
        Some(
            plain(
                if s.state@ == "PLAYING"@ {
                    RequestSpec::Pause(id)
                } else {
                    RequestSpec::Resume(id)
                },
            ),
        )
    } else if c == '+' || c == '=' {
        Some(plain(RequestSpec::SetVolume(id, if s.volume + 5 > 100 { 100u8 } else { (s.volume + 5) as u8 })))
    } else if c == '-' {
        Some(plain(RequestSpec::SetVolume(id, if s.volume < 5 { 0u8 } else { (s.volume - 5) as u8 })))
    } else if c == 'n' {
        Some(
            ActionSpec::Send(
                RequestSpec::Next(id),
                Some(("Onward, into shadow."@, 2)),
                Some(("The road goes ever on \u{2014} but not to the next track."@, 3)),
            ),
        )
    } else if c == 'p' {
        Some(
            ActionSpec::Send(
                RequestSpec::Previous(id),
                Some(("Back to the beginning."@, 2)),
                Some(("The road goes ever on \u{2014} but not to the previous track."@, 3)),
            ),
        )
    } else {
        None
    }
}

/// A key pressed with no prompt open.
pub open spec fn normal_key_effect(a: App, b: App, acts: Seq<ActionSpec>, key: KeyPress, now: u64) -> bool {
    let selected = a.speaker_index < a.speakers@.len();
    match key.code {
        KeyCode::Tab => acts.len() == 0 && b == (App { active_panel: crate::app::panel_after(a.active_panel), ..a }),
        KeyCode::Up => acts.len() == 0 && b == a.moved_prev(),
        KeyCode::Down => acts.len() == 0 && b == a.moved_next(),
        KeyCode::Esc => acts.len() == 0 && b == (App { help_open: false, ..a }),
        KeyCode::Enter => if selected && a.playlist_index < a.playlists@.len() {
            let id = speaker_id_of(a.speakers@[a.speaker_index as int]);
            let alias = a.playlists@[a.playlist_index as int].alias@;
            &&& acts == seq![plain(RequestSpec::Play(id, alias)), ActionSpec::RecordPlay(alias)]
            &&& with_status(a, b, "Playing "@ + alias + " on "@ + id, 3, now)
        } else {
            acts.len() == 0 && b == a
        },
        KeyCode::Char(c) => if c == 'q' {
            acts.len() == 0 && b == (App { should_quit: true, ..a })
        } else if c == 'k' {
            acts.len() == 0 && b == a.moved_prev()
        } else if c == 'j' {
            acts.len() == 0 && b == a.moved_next()
        } else if c == 'g' {
            b == a && acts == seq![
                plain(
                    if has_follower(a.speakers@) {
                        RequestSpec::UngroupAll
                    } else {
                        RequestSpec::GroupAll
                    },
                ),
            ]
        } else if c == 'v' {
            acts.len() == 0 && with_volume_line(a, b, Seq::empty())
        } else if c == ':' {
            acts.len() == 0 && b == (App { command_input: b.command_input, volume_input: None, ..a })
                && (b.command_input matches Some(t) && t@.len() == 0)
        } else if c == '?' {
            acts.len() == 0 && b == (App { help_open: !a.help_open, ..a })
        } else {
            b == a && if selected {
                match speaker_key_request(a.speakers@[a.speaker_index as int], c) {
                    Some(x) => acts == seq![x],
                    None => acts.len() == 0,
                }
            } else {
                acts.len() == 0
            }
        },
        _ => acts.len() == 0 && b == a,
    }
}

/// What a key press does: `a` becomes `b` and `acts` are to be done.
pub open spec fn key_effect(a: App, b: App, acts: Seq<ActionSpec>, key: KeyPress, now: u64) -> bool {
    match a.command_input {
        Some(buf) => command_key_effect(a, b, acts, key, buf@, now),
        None => match a.volume_input {
            Some(buf) => volume_key_effect(a, b, acts, key, buf@),
            None => normal_key_effect(a, b, acts, key, now),
        },
    }
}

/// The playlists' display names.
pub(crate) fn playlist_names(ps: &Vec<Playlist>) -> (r: Vec<String>)
    ensures
        text_views(r@) == names_of(ps@),
{
    let mut r: Vec<String> = Vec::new();
    let mut i: usize = 0;
    while i < ps.len()
        invariant
            i <= ps@.len(),
            text_views(r@) == names_of(ps@.take(i as int)),
        decreases ps.len() - i,
    {
        let ghost before = r@;
        let name = ps[i].favorite_name.clone();
        r.push(name);
        assert(text_views(r@) =~= text_views(before).push(ps@[i as int].favorite_name@));
        assert(names_of(ps@.take(i + 1)) =~= names_of(ps@.take(i as int)).push(ps@[i as int].favorite_name@));
        i += 1;
    }
    assert(ps@.take(i as int) =~= ps@);
    r
}

/// The command line after Tab.
fn complete_line(buf: &String, ps: &Vec<Playlist>) -> (r: String)
    ensures
        r@ == completed(buf@, names_of(ps@)),
{
    let names = playlist_names(ps);
    match suggest(buf.as_str(), names.as_slice()) {
        Some(Completion::Suffix(t)) => {
            let mut r = buf.clone();
            r.append(t.as_str());
            r
        },
        Some(Completion::Replacement(name)) => {
            let v = chars_of(buf.as_str());
            match find_char(v.as_slice(), ' ') {
                Some(k) => {
                    let mut r = string_of_range(v.as_slice(), 0, k);
                    push_char(&mut r, ' ');
                    r.append(name.as_str());
                    assert(v@.take(k as int) =~= v@.subrange(0, k as int));
                    r
                },
                None => buf.clone(),
            }
        },
        None => buf.clone(),
    }
}

/// A key pressed while the command line is open.
fn command_key(app: &mut App, key: KeyPress, buf: String, now: u64) -> (r: Vec<Action>)
    requires
        old(app).command_input matches Some(b) && b@ == buf@,
    ensures
        command_key_effect(*old(app), *final(app), action_views(r@), key, buf@, now),
{
    let none: Vec<Action> = Vec::new();
    assert(action_views(none@) =~= Seq::<ActionSpec>::empty());
    match key.code {
        KeyCode::Char(c) => {
            if !key.ctrl {
                let mut t = buf;
                push_char(&mut t, c);
                app.command_input = Some(t);
            }
            none
        },
        KeyCode::Backspace => {
            if buf.as_str().unicode_len() == 0 {
                app.command_input = None;
            } else {
                let mut t = buf;
                pop_char(&mut t);
                app.command_input = Some(t);
            }
            none
        },
        KeyCode::Tab => {
            let t = complete_line(&buf, &app.playlists);
            app.command_input = Some(t);
            none
        },
        KeyCode::Enter => {
            app.command_input = None;
            execute_command(app, buf.as_str(), now)
        },
        KeyCode::Esc => {
            app.command_input = None;
            none
        },
        _ => none,
    }
}

/// A key pressed while the volume prompt is open.
fn volume_key(app: &mut App, key: KeyPress, buf: String) -> (r: Vec<Action>)
    requires
        old(app).volume_input matches Some(b) && b@ == buf@,
    ensures
        volume_key_effect(*old(app), *final(app), action_views(r@), key, buf@),
{
    let mut acts: Vec<Action> = Vec::new();
    assert(action_views(acts@) =~= Seq::<ActionSpec>::empty());
    match key.code {
        KeyCode::Char(c) => {
            let n = buf.as_str().unicode_len();
            if '0' <= c && c <= '9' && n < 3 {
                let mut t = buf;
                push_char(&mut t, c);
                app.volume_input = Some(t);
            }
        },
        KeyCode::Backspace => {
            let mut t = buf;
            pop_char(&mut t);
            app.volume_input = Some(t);
        },
        KeyCode::Enter => {
            app.volume_input = None;
            let v = chars_of(buf.as_str());
            assert(v@.subrange(0, v@.len() as int) =~= v@);
            match read_capped(v.as_slice(), 0, v.len(), 100) {
                Some(level) => {
                    let level = level as u8;
                    match app.speaker_id() {
                        Some(id) => {
                            acts.push(plain_send(Request::SetVolume { speaker: id, volume: level }));
                            assert(action_views(acts@) =~= seq![acts@[0]@]);
                        },
                        None => {},
                    }
                },
                None => {},
            }
        },
        KeyCode::Esc => {
            app.volume_input = None;
        },
        _ => {},
    }
    acts
}

/// The request a key sends for the selected speaker, if any.
fn speaker_key(s: &Speaker, c: char) -> (r: Option<Action>)
    ensures
        match r {
            Some(a) => speaker_key_request(*s, c) == Some(a@),
            None => speaker_key_request(*s, c) is None,
        },
{
    if c == ' ' {
        let id = id_of(s);
        if same_text(s.state.as_str(), "PLAYING") {
            Some(plain_send(Request::Pause { speaker: id }))
        } else {
            Some(plain_send(Request::Resume { speaker: id }))
        }
    } else if c == '+' || c == '=' {
        let level: u8 = if s.volume > 95 {
            100
        } else {
            s.volume + 5
        };
        Some(plain_send(Request::SetVolume { speaker: id_of(s), volume: level }))
    } else if c == '-' {
        let level: u8 = if s.volume < 5 {
            0
        } else {
            s.volume - 5
        };
        Some(plain_send(Request::SetVolume { speaker: id_of(s), volume: level }))
    } else if c == 'n' {
        Some(
            Action::Send {
                request: Request::Next { speaker: id_of(s) },
                on_ok: notice("Onward, into shadow.", 2),
                on_err: notice("The road goes ever on \u{2014} but not to the next track.", 3),
            },
        )
    } else if c == 'p' {
        Some(
            Action::Send {
                request: Request::Previous { speaker: id_of(s) },
                on_ok: notice("Back to the beginning.", 2),
                on_err: notice("The road goes ever on \u{2014} but not to the previous track.", 3),
            },
        )
    } else {
        None
    }
}

/// A key pressed with no prompt open.
fn normal_key(app: &mut App, key: KeyPress, now: u64) -> (r: Vec<Action>)
    ensures
        normal_key_effect(*old(app), *final(app), action_views(r@), key, now),
{
    let mut acts: Vec<Action> = Vec::new();
    assert(action_views(acts@) =~= Seq::<ActionSpec>::empty());
    match key.code {
        KeyCode::Tab => app.cycle_panel(),
        KeyCode::Up => app.prev_in_list(),
        KeyCode::Down => app.next_in_list(),
        KeyCode::Esc => {
            app.help_open = false;
        },
        KeyCode::Enter => {
            match app.speaker_id() {
                Some(id) => {
                    if app.playlist_index < app.playlists.len() {
                        let alias = app.playlists[app.playlist_index].alias.clone();
                        let ghost av = alias@;
                        let ghost iv = id@;
                        let mut text = String::from_str("Playing ");
                        text.append(alias.as_str());
                        text.append(" on ");
                        text.append(id.as_str());
                        acts.push(plain_send(Request::Play { speaker: id, playlist: alias.clone() }));
                        acts.push(Action::RecordPlay(alias));
                        app.set_status_at(text.as_str(), 3, now);
                        assert(action_views(acts@) =~= seq![
                            plain(RequestSpec::Play(iv, av)),
                            ActionSpec::RecordPlay(av),
                        ]);
                    }
                },
                None => {},
            }
        },
        KeyCode::Char(c) => {
            if c == 'q' {
                app.should_quit = true;
            } else if c == 'k' {
                app.prev_in_list();
            } else if c == 'j' {
                app.next_in_list();
            } else if c == 'g' {
                if app.is_grouped() {
                    acts.push(plain_send(Request::UngroupAll));
                } else {
                    acts.push(plain_send(Request::GroupAll));
                }
                assert(action_views(acts@) =~= seq![acts@[0]@]);
            } else if c == 'v' {
                app.volume_input = Some(String::new());
            } else if c == ':' {
                app.command_input = Some(String::new());
                app.volume_input = None;
            } else if c == '?' {
                app.help_open = !app.help_open;
            } else {
                match app.selected_speaker() {
                    Some(s) => match speaker_key(s, c) {
                        Some(a) => {
                            acts.push(a);
                            assert(action_views(acts@) =~= seq![acts@[0]@]);
                        },
                        None => {},
                    },
                    None => {},
                }
            }
        },
        _ => {},
    }
    acts
}

/// Handles one key press at time `now`: changes the state and returns the
/// requests to send, in order. The command line, when open, takes every key;
/// else the volume prompt, when open; else the single-key bindings apply.
pub fn handle_key(app: &mut App, key: KeyPress, now: u64) -> (r: Vec<Action>)
    ensures
        key_effect(*old(app), *final(app), action_views(r@), key, now),
{
    match &app.command_input {
        Some(b) => {
            let buf = b.clone();
            return command_key(app, key, buf, now);
        },
        None => {},
    }
    match &app.volume_input {
        Some(b) => {
            let buf = b.clone();
            return volume_key(app, key, buf);
        },
        None => {},
    }
    normal_key(app, key, now)
}

/// After `action` was carried out with outcome `ok` at time `now`: shows the
/// status that the outcome names, if any.
pub fn settle(app: &mut App, action: &Action, ok: bool, now: u64)
    ensures
        match action@ {
            ActionSpec::Send(_, on_ok, on_err) => match if ok { on_ok } else { on_err } {
                Some(n) => with_status(*old(app), *final(app), n.0, n.1, now),
                None => *final(app) == *old(app),
            },
            _ => *final(app) == *old(app),
        },
{
    match action {
        Action::Send { request: _, on_ok, on_err } => {
            let chosen = if ok {
                on_ok
            } else {
                on_err
            };
            match chosen {
                Some(n) => app.set_status_at(n.text.as_str(), n.secs, now),
                None => {},
            }
        },
        _ => {},
    }
}

/// The sleep timer at time `now`: once its deadline has come, it is
/// disarmed, every speaker is paused and a status says so.
pub fn sleep_tick(app: &mut App, now: u64) -> (r: Vec<Action>)
    ensures
        match old(app).sleep_until {
            Some(s) => if now >= s {
                &&& action_views(r@) == old(app).speakers@.map_values(
                    |sp: Speaker| plain(RequestSpec::Pause(speaker_id_of(sp))),
                )
                &&& with_status(
                    App { sleep_until: None, ..*old(app) },
                    *final(app),
                    "The Fellowship rests. All speakers paused."@,
                    5,
                    now,
                )
            } else {
                r@.len() == 0 && *final(app) == *old(app)
            },
            None => r@.len() == 0 && *final(app) == *old(app),
        },
{
    let mut acts: Vec<Action> = Vec::new();
    match app.sleep_until {
        Some(s) => {
            if now >= s {
                app.sleep_until = None;
                let mut i: usize = 0;
                while i < app.speakers.len()
                    invariant
                        i <= app.speakers@.len(),
                        action_views(acts@) == app.speakers@.take(i as int).map_values(
                            |sp: Speaker| plain(RequestSpec::Pause(speaker_id_of(sp))),
                        ),
                    decreases app.speakers.len() - i,
                {
                    let ghost before = acts@;
                    let a = plain_send(Request::Pause { speaker: id_of(&app.speakers[i]) });
                    acts.push(a);
                    assert(action_views(acts@) =~= action_views(before).push(
                        plain(RequestSpec::Pause(speaker_id_of(app.speakers@[i as int]))),
                    ));
                    assert(app.speakers@.take(i + 1).map_values(
                        |sp: Speaker| plain(RequestSpec::Pause(speaker_id_of(sp))),
                    ) =~= app.speakers@.take(i as int).map_values(
                        |sp: Speaker| plain(RequestSpec::Pause(speaker_id_of(sp))),
                    ).push(plain(RequestSpec::Pause(speaker_id_of(app.speakers@[i as int])))));
                    i += 1;
                }
                assert(app.speakers@.take(i as int) =~= app.speakers@);
                app.set_status_at("The Fellowship rests. All speakers paused.", 5, now);
            }
        },
        None => {},
    }
    acts
}

/// Takes the first speaker snapshot: the speakers when they came, else a
/// status that says the service is not there.
pub fn open_session(app: &mut App, speakers: Option<Vec<Speaker>>, now: u64)
    ensures
        match speakers {
            Some(v) => *final(app) == (App { speakers: v, ..*old(app) }),
            None => with_status(
                *old(app),
                *final(app),
                "The gates of Moria are sealed. Start sonosd."@,
                3600,
                now,
            ),
        },
{
    match speakers {
        Some(v) => {
            app.speakers = v;
        },
        None => {
            app.set_status_at("The gates of Moria are sealed. Start sonosd.", 3600, now);
        },
    }
}

/// Takes freshly fetched playlists and favorites: the playlists replace the
/// old ones when they came, then the favorites not yet shown are added.
pub fn refresh_catalog(app: &mut App, playlists: Option<Vec<Playlist>>, favorites: Option<Vec<String>>)
    ensures
        *final(app) == (App { playlists: final(app).playlists, ..*old(app) }),
        ({
            let base = match playlists {
                Some(v) => v@,
                None => old(app).playlists@,
            };
            playlist_views(final(app).playlists@) == playlist_views(base) + match favorites {
                Some(f) => favorite_additions(base, f@),
                None => Seq::empty(),
            }
        }),
{
    match playlists {
        Some(v) => {
            app.playlists = v;
        },
        None => {},
    }
    match favorites {
        Some(f) => {
            merge_favorites(&mut app.playlists, f.as_slice());
        },
        None => {
            assert(playlist_views(app.playlists@) =~= playlist_views(app.playlists@) + Seq::<(Seq<char>, Seq<char>)>::empty());
        },
    }
}

/// Applies the service's playlist order setting: `popularity` ranks the
/// playlists by the plays in `entries` before `now` (milliseconds), keeping
/// the order of those that rank equally; any other setting leaves them as
/// they came.
pub fn apply_sort_mode(app: &mut App, mode: &str, entries: &[PlayEntry], now: u64)
    ensures
        *final(app) == (App { playlists: final(app).playlists, ..*old(app) }),
        mode@ == "popularity"@ ==> final(app).playlists@.to_multiset() == old(app).playlists@.to_multiset()
            && ranked(final(app).playlists@, entries@, cutoff(now / 1000, RANK_WINDOW_SECS))
            && exists|perm: Seq<int>|
            #[trigger] stable_arrangement(
                final(app).playlists@,
                old(app).playlists@,
                perm,
                entries@,
                cutoff(now / 1000, RANK_WINDOW_SECS),
            ),
        mode@ != "popularity"@ ==> final(app).playlists == old(app).playlists,
{
    if same_text(mode, "popularity") {
        popularity_sort_from(&mut app.playlists, entries, now / 1000);
    }
}

/// At most one of the command line and the volume prompt is open.
pub open spec fn prompts_exclusive(a: App) -> bool {
    !(a.command_input is Some && a.volume_input is Some)
}

/// A key press never leaves both the command line and the volume prompt
/// open: opening one closes the other.
pub proof fn law_prompts_stay_exclusive(a: App, b: App, acts: Seq<ActionSpec>, key: KeyPress, now: u64)
    requires
        prompts_exclusive(a),
        key_effect(a, b, acts, key, now),
    ensures
        prompts_exclusive(b),
{
}

} // verus!
