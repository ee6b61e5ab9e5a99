//! A layout-free description of the dashboard: what each region shows, as
//! rows of styled text and numbers, derived from the state alone.

use vstd::prelude::*;
use vstd::string::*;
use crate::app::{has_follower, App, Panel};
use crate::command::{autocomplete, suggest_spec, ghost_text};
use crate::control::names_of;
use crate::model::{follows, id_of, is_coordinator, is_solo, referents, speaker_id_of, Playlist, Speaker, Track};
use crate::text::{
    clock_text, decimal_text, pad_left, pad_right, padded_left, padded_right, push_clock,
    push_decimal, push_repeat, repeat_spec, same_text,
};

verus! {

/// Seconds as `m:ss`.
pub fn format_time(seconds: u64) -> (r: String)
    ensures
        r@ == clock_text(seconds as nat),
{
    let mut r = String::new();
    push_clock(&mut r, seconds);
    assert(r@ =~= clock_text(seconds as nat));
    r
}

/// `s` cut to fit `max` characters: when it holds more than `max - 1`, its
/// first `max - 1` characters followed by an ellipsis; else `s` itself.
pub open spec fn truncate_spec(s: Seq<char>, max: nat) -> Seq<char> {
    let keep = if max > 0 {
        (max - 1) as nat
    } else {
        0nat
    };
    if s.len() > keep {
        s.take(keep as int).push('\u{2026}')
    } else {
        s
    }
}

/// `s` cut to fit `max` characters, with an ellipsis where it was cut.
pub fn truncate(s: &str, max: usize) -> (r: String)
    ensures
        r@ == truncate_spec(s@, max as nat),
{
    let keep = if max > 0 {
        max - 1
    } else {
        0
    };
    let n = s.unicode_len();
    if n > keep {
        let mut r = String::from_str(s.substring_char(0, keep));
        crate::text::push_char(&mut r, '\u{2026}');
        r
    } else {
        String::from_str(s)
    }
}

/// How a piece of text is drawn.
#[derive(Debug, Clone, Copy, PartialEq, Eq, Structural)]
pub enum Tone {
    Plain,
    Fg,
    Dim,
    Accent,
    AccentBold,
    Playing,
    Paused,
}

/// A run of text in one tone.
#[derive(Debug, PartialEq)]
pub struct Span {
    pub text: String,
    pub tone: Tone,
}

/// One line of a region; `highlight` marks the selected line of the focused list.
#[derive(Debug, PartialEq)]
pub struct Row {
    pub spans: Vec<Span>,
    pub highlight: bool,
}

pub type SpanSpec = (Seq<char>, Tone);

pub type RowSpec = (Seq<SpanSpec>, bool);

impl View for Span {
    type V = SpanSpec;

    open spec fn view(&self) -> SpanSpec {
        (self.text@, self.tone)
    }
}

impl View for Row {
    type V = RowSpec;

    open spec fn view(&self) -> RowSpec {
        (self.spans@.map_values(|s: Span| s@), self.highlight)
    }
}

/// The rows of `s` as values.
pub open spec fn row_views(s: Seq<Row>) -> Seq<RowSpec> {
    s.map_values(|r: Row| r@)
}

fn span(text: &str, tone: Tone) -> (r: Span)
    ensures
        r@ == (text@, tone),
{
    Span { text: String::from_str(text), tone }
}

fn span_of(text: String, tone: Tone) -> (r: Span)
    ensures
        r@ == (text@, tone),
{
    Span { text, tone }
}

/// The glyph and tone for a play state.
pub open spec fn state_glyph(state: Seq<char>) -> SpanSpec {
    if state == "PLAYING"@ {
        ("\u{25b6}"@, Tone::Playing)
    } else if state == "PAUSED_PLAYBACK"@ {
        ("\u{23f8}"@, Tone::Paused)
    } else {
        ("\u{b7}"@, Tone::Dim)
    }
}

fn glyph(state: &String) -> (r: Span)
    ensures
        r@ == state_glyph(state@),
{
    if same_text(state.as_str(), "PLAYING") {
        span("\u{25b6}", Tone::Playing)
    } else if same_text(state.as_str(), "PAUSED_PLAYBACK") {
        span("\u{23f8}", Tone::Paused)
    } else {
        span("\u{b7}", Tone::Dim)
    }
}

/// The mark that says whether a speaker leads, follows or stands alone.
pub open spec fn group_tag(s: Speaker) -> SpanSpec {
    match s.group_coordinator {
        None => ("  "@, Tone::Plain),
        Some(c) => if c@ == s.name@ {
            (" \u{25c8}"@, Tone::Accent)
        } else {
            (" \u{21b3}"@, Tone::Dim)
        },
    }
}

/// A line of the flat speaker list.
pub open spec fn speaker_row(s: Speaker, selected: bool, focused: bool) -> RowSpec {
    (
        seq![
            (if selected { " \u{25ba} "@ } else { "   "@ }, Tone::Plain),
            (pad_right(speaker_id_of(s), 14), if selected && focused { Tone::AccentBold } else { Tone::Fg }),
            group_tag(s),
            (" "@ + pad_left(decimal_text(s.volume as nat), 3), Tone::Dim),
            ("  "@, Tone::Plain),
            state_glyph(s.state@),
        ],
        selected && focused,
    )
}

/// The flat speaker list.
pub open spec fn speaker_list_spec(a: App) -> Seq<RowSpec> {
    Seq::new(
        a.speakers@.len(),
        |i: int| speaker_row(a.speakers@[i], i == a.speaker_index, a.active_panel == Panel::Speakers),
    )
}

fn speaker_row_exec(s: &Speaker, selected: bool, focused: bool) -> (r: Row)
    ensures
        r@ == speaker_row(*s, selected, focused),
{
    let mut spans: Vec<Span> = Vec::new();
    spans.push(span(if selected { " \u{25ba} " } else { "   " }, Tone::Plain));
    let id = id_of(s);
    spans.push(span_of(padded_right(id.as_str(), 14), if selected && focused { Tone::AccentBold } else { Tone::Fg }));
    let tag = match &s.group_coordinator {
        None => span("  ", Tone::Plain),
        Some(c) => if *c == s.name {
            span(" \u{25c8}", Tone::Accent)
        } else {
            span(" \u{21b3}", Tone::Dim)
        },
    };
    spans.push(tag);
    let mut digits = String::new();
    push_decimal(&mut digits, s.volume as u64);
    let mut vol = String::from_str(" ");
    vol.append(padded_left(digits.as_str(), 3).as_str());
    spans.push(span_of(vol, Tone::Dim));
    spans.push(span("  ", Tone::Plain));
    spans.push(glyph(&s.state));
    let r = Row { spans, highlight: selected && focused };
    assert(r@.0 =~= speaker_row(*s, selected, focused).0);
    r
}

/// The flat speaker list: marker, id, group mark, level and play state.
pub fn speaker_rows(app: &App) -> (r: Vec<Row>)
    ensures
        row_views(r@) == speaker_list_spec(*app),
{
    let focused = app.active_panel == Panel::Speakers;
    let mut rows: Vec<Row> = Vec::new();
    let mut i: usize = 0;
    while i < app.speakers.len()
        invariant
            i <= app.speakers@.len(),
            focused == (app.active_panel == Panel::Speakers),
            row_views(rows@) == speaker_list_spec(*app).take(i as int),
        decreases app.speakers.len() - i,
    {
        let row = speaker_row_exec(&app.speakers[i], i == app.speaker_index, focused);
        let ghost before = rows@;
        rows.push(row);
        assert(row_views(rows@) =~= row_views(before).push(speaker_list_spec(*app)[i as int]));
        assert(row_views(rows@) =~= speaker_list_spec(*app).take(i + 1));
        i += 1;
    }
    assert(speaker_list_spec(*app).take(i as int) =~= speaker_list_spec(*app));
    rows
}

/// A line of the playlist list.
pub open spec fn playlist_row(p: Playlist, selected: bool, focused: bool) -> RowSpec {
    (
        seq![
            (if selected { " \u{25ba} "@ } else { "   "@ }, Tone::Plain),
            (pad_right(p.alias@, 10), if selected && focused { Tone::AccentBold } else { Tone::Fg }),
            (truncate_spec(p.favorite_name@, 24), Tone::Dim),
        ],
        selected && focused,
    )
}

/// The playlist list.
pub open spec fn playlist_list_spec(a: App) -> Seq<RowSpec> {
    Seq::new(
        a.playlists@.len(),
        |i: int| playlist_row(a.playlists@[i], i == a.playlist_index, a.active_panel == Panel::Playlists),
    )
}

/// The playlist list: marker, alias and shortened name.
pub fn playlist_rows(app: &App) -> (r: Vec<Row>)
    ensures
        row_views(r@) == playlist_list_spec(*app),
{
    let focused = app.active_panel == Panel::Playlists;
    let mut rows: Vec<Row> = Vec::new();
    let mut i: usize = 0;
    while i < app.playlists.len()
        invariant
            i <= app.playlists@.len(),
            focused == (app.active_panel == Panel::Playlists),
            row_views(rows@) == playlist_list_spec(*app).take(i as int),
        decreases app.playlists.len() - i,
    {
        let p = &app.playlists[i];
        let selected = i == app.playlist_index;
        let mut spans: Vec<Span> = Vec::new();
        spans.push(span(if selected { " \u{25ba} " } else { "   " }, Tone::Plain));
        spans.push(span_of(padded_right(p.alias.as_str(), 10), if selected && focused { Tone::AccentBold } else { Tone::Fg }));
        spans.push(span_of(truncate(p.favorite_name.as_str(), 24), Tone::Dim));
        let row = Row { spans, highlight: selected && focused };
        assert(row@.0 =~= playlist_row(*p, selected, focused).0);
        let ghost before = rows@;
        rows.push(row);
        assert(row_views(rows@) =~= row_views(before).push(playlist_list_spec(*app)[i as int]));
        assert(row_views(rows@) =~= playlist_list_spec(*app).take(i + 1));
        i += 1;
    }
    assert(playlist_list_spec(*app).take(i as int) =~= playlist_list_spec(*app));
    rows
}

/// The widest id among `ms`, and at least `least`.
pub open spec fn id_width(ms: Seq<Speaker>, least: nat) -> nat
    decreases ms.len(),
{
    if ms.len() == 0 {
        least
    } else {
        let w = id_width(ms.drop_last(), least);
        let l = speaker_id_of(ms.last()).len();
        if l > w {
            l
        } else {
            w
        }
    }
}

/// Length of the border of a group whose names are `w` wide.
pub open spec fn bar_len(w: nat) -> nat {
    if w + 6 <= usize::MAX {
        w + 6
    } else {
        usize::MAX as nat
    }
}

/// A member's line inside its group's box.
pub open spec fn member_row(m: Speaker, width: nat) -> RowSpec {
    (
        seq![
            (" \u{2551} "@, Tone::Accent),
            (pad_right(speaker_id_of(m), width), Tone::Fg),
            (if is_coordinator(m) { " \u{25c8}"@ } else { " \u{21b3}"@ }, Tone::Dim),
            (" "@, Tone::Plain),
            state_glyph(m.state@),
            (" \u{2551}"@, Tone::Accent),
        ],
        false,
    )
}

/// The box for the group led by `c`, with `members` inside.
pub open spec fn group_rows(c: Speaker, members: Seq<Speaker>) -> Seq<RowSpec> {
    let w = id_width(members, speaker_id_of(c).len());
    let bar = repeat_spec('\u{2550}', bar_len(w));
    seq![(seq![(" \u{2554}"@ + bar + "\u{2557}"@, Tone::Accent)], false)] + members.map_values(
        |m: Speaker| member_row(m, w),
    ) + seq![(seq![(" \u{255a}"@ + bar + "\u{255d}"@, Tone::Accent)], false), (Seq::empty(), false)]
}

/// The boxes for the groups led by `coords`, in order.
pub open spec fn groups_spec(coords: Seq<Speaker>, all: Seq<Speaker>) -> Seq<RowSpec>
    decreases coords.len(),
{
    if coords.len() == 0 {
        Seq::empty()
    } else {
        groups_spec(coords.drop_last(), all) + group_rows(
            coords.last(),
            all.filter(|s: Speaker| follows(s, coords.last().name@)),
        )
    }
}

/// A lone speaker's line below the groups.
pub open spec fn solo_row(s: Speaker) -> RowSpec {
    (seq![("   "@ + speaker_id_of(s) + " "@, Tone::Dim), state_glyph(s.state@), (" (solo)"@, Tone::Dim)], false)
}

/// The topology view: one box per group, then the lone speakers.
pub open spec fn topology_spec(a: App) -> Seq<RowSpec> {
    groups_spec(a.speakers@.filter(|s: Speaker| is_coordinator(s)), a.speakers@) + a.speakers@.filter(
        |s: Speaker| is_solo(s),
    ).map_values(|s: Speaker| solo_row(s))
}

fn border_row(left: &str, bar: &String, right: &str) -> (r: Row)
    ensures
        r@ == (seq![(left@ + bar@ + right@, Tone::Accent)], false),
{
    let mut t = String::from_str(left);
    t.append(bar.as_str());
    t.append(right);
    let mut spans: Vec<Span> = Vec::new();
    spans.push(span_of(t, Tone::Accent));
    let r = Row { spans, highlight: false };
    assert(r@.0 =~= seq![(left@ + bar@ + right@, Tone::Accent)]);
    r
}

/// Appends the box for the group led by `c` to `rows`.
fn push_group(rows: &mut Vec<Row>, app: &App, c: &Speaker)
    ensures
        row_views(final(rows)@) == row_views(old(rows)@) + group_rows(
            *c,
            app.speakers@.filter(|s: Speaker| follows(s, c.name@)),
        ),
{
    let ghost r0 = row_views(rows@);
    let members = app.group_members_of(c.name.as_str());
    let ghost ms = referents(members@);
    let cid = id_of(c);
    let mut w = cid.as_str().unicode_len();
    let mut i: usize = 0;
    while i < members.len()
        invariant
            i <= members@.len(),
            ms == referents(members@),
            w == id_width(ms.take(i as int), speaker_id_of(*c).len()),
        decreases members.len() - i,
    {
        let l = id_of(members[i]).as_str().unicode_len();
        assert(ms.take(i + 1).drop_last() =~= ms.take(i as int));
        if l > w {
            w = l;
        }
        i += 1;
    }
    assert(ms.take(i as int) =~= ms);
    let n = if w <= usize::MAX - 6 {
        w + 6
    } else {
        usize::MAX
    };
    let mut bar = String::new();
    push_repeat(&mut bar, '\u{2550}', n);
    let ghost w_spec = id_width(ms, speaker_id_of(*c).len());
    assert(bar@ == repeat_spec('\u{2550}', bar_len(w_spec)));
    let ghost top_row: RowSpec = (seq![(" \u{2554}"@ + bar@ + "\u{2557}"@, Tone::Accent)], false);
    rows.push(border_row(" \u{2554}", &bar, "\u{2557}"));
    let ghost top = row_views(rows@);
    assert(top =~= r0.push(top_row));
    let mut j: usize = 0;
    while j < members.len()
        invariant
            j <= members@.len(),
            ms == referents(members@),
            row_views(rows@) == top + ms.take(j as int).map_values(|m: Speaker| member_row(m, w as nat)),
        decreases members.len() - j,
    {
        let m = members[j];
        let mut spans: Vec<Span> = Vec::new();
        spans.push(span(" \u{2551} ", Tone::Accent));
        spans.push(span_of(padded_right(id_of(m).as_str(), w), Tone::Fg));
        let leads = match &m.group_coordinator {
            Some(g) => *g == m.name,
            None => false,
        };
        spans.push(span(if leads { " \u{25c8}" } else { " \u{21b3}" }, Tone::Dim));
        spans.push(span(" ", Tone::Plain));
        spans.push(glyph(&m.state));
        spans.push(span(" \u{2551}", Tone::Accent));
        let row = Row { spans, highlight: false };
        assert(row@.0 =~= member_row(*m, w as nat).0);
        let ghost before = row_views(rows@);
        rows.push(row);
        assert(row_views(rows@) =~= before.push(member_row(ms[j as int], w as nat)));
        assert(ms.take(j + 1).map_values(|m: Speaker| member_row(m, w as nat)) =~= ms.take(j as int).map_values(
            |m: Speaker| member_row(m, w as nat),
        ).push(member_row(ms[j as int], w as nat)));
        j += 1;
    }
    assert(ms.take(j as int) =~= ms);
    let ghost mid = row_views(rows@);
    let ghost bottom_row: RowSpec = (seq![(" \u{255a}"@ + bar@ + "\u{255d}"@, Tone::Accent)], false);
    rows.push(border_row(" \u{255a}", &bar, "\u{255d}"));
    let empty = Row { spans: Vec::new(), highlight: false };
    assert(empty@.0 =~= Seq::<SpanSpec>::empty());
    rows.push(empty);
    proof {
        let mrows = ms.map_values(|m: Speaker| member_row(m, w as nat));
        assert(mid == r0.push(top_row) + mrows);
        assert(row_views(rows@) =~= mid.push(bottom_row).push((Seq::<SpanSpec>::empty(), false)));
        let g = group_rows(*c, ms);
        assert(g =~= seq![top_row] + mrows + seq![bottom_row, (Seq::<SpanSpec>::empty(), false)]);
        assert(row_views(rows@) =~= r0 + g);
    }
}

/// The topology view: a box per group, each line naming a member, its role
/// and play state, sized to the group's widest id; then the lone speakers.
pub fn topology_rows(app: &App) -> (r: Vec<Row>)
    ensures
        row_views(r@) == topology_spec(*app),
{
    let coords = app.coordinators();
    let ghost cs = referents(coords@);
    let mut rows: Vec<Row> = Vec::new();
    let mut k: usize = 0;
    assert(row_views(rows@) =~= Seq::<RowSpec>::empty());
    while k < coords.len()
        invariant
            k <= coords@.len(),
            cs == referents(coords@),
            cs == app.speakers@.filter(|s: Speaker| is_coordinator(s)),
            row_views(rows@) == groups_spec(cs.take(k as int), app.speakers@),
        decreases coords.len() - k,
    {
        push_group(&mut rows, app, coords[k]);
        assert(cs.take(k + 1).drop_last() =~= cs.take(k as int));
        k += 1;
    }
    assert(cs.take(k as int) =~= cs);
    let ghost groups = row_views(rows@);
    let solos = app.solo_speakers();
    let ghost ss = referents(solos@);
    let mut j: usize = 0;
    while j < solos.len()
        invariant
            j <= solos@.len(),
            ss == referents(solos@),
            row_views(rows@) == groups + ss.take(j as int).map_values(|s: Speaker| solo_row(s)),
        decreases solos.len() - j,
    {
        let sp = solos[j];
        let mut t = String::from_str("   ");
        t.append(id_of(sp).as_str());
        t.append(" ");
        let mut spans: Vec<Span> = Vec::new();
        spans.push(span_of(t, Tone::Dim));
        spans.push(glyph(&sp.state));
        spans.push(span(" (solo)", Tone::Dim));
        let row = Row { spans, highlight: false };
        assert(row@.0 =~= solo_row(*sp).0);
        let ghost before = row_views(rows@);
        rows.push(row);
        assert(row_views(rows@) =~= before.push(solo_row(ss[j as int])));
        assert(ss.take(j + 1).map_values(|s: Speaker| solo_row(s)) =~= ss.take(j as int).map_values(
            |s: Speaker| solo_row(s),
        ).push(solo_row(ss[j as int])));
        j += 1;
    }
    assert(ss.take(j as int) =~= ss);
    rows
}

/// The speaker region: the topology view while some speaker follows
/// another, else the flat list.
pub fn speaker_panel(app: &App) -> (r: Vec<Row>)
    ensures
        row_views(r@) == if has_follower(app.speakers@) {
            topology_spec(*app)
        } else {
            speaker_list_spec(*app)
        },
{
    if app.is_grouped() {
        topology_rows(app)
    } else {
        speaker_rows(app)
    }
}

/// Where one speaker's block goes in the now-playing region: rows
/// `top .. top + height` of it, for the speaker at `entity` of the playing
/// list, with or without the volume gauge.
#[derive(Debug, Clone, Copy, PartialEq, Eq, Structural)]
pub struct Band {
    pub entity: usize,
    pub top: u16,
    pub height: u16,
    pub show_volume: bool,
}

/// Rows a block needs to show the volume gauge: the label and eight lines.
pub const FULL_BLOCK_ROWS: u16 = 9;

/// The bands for `count` speakers in a region `height` rows tall: none
/// when nothing plays; one full block for one speaker; else equal bands,
/// the last one taking what is left, or only the first speaker when the
/// region has fewer rows than speakers. When several speakers play, a band
/// shows the volume gauge only if it has room for it.
pub open spec fn layout_spec(count: nat, height: u16) -> Seq<Band> {
    if count == 0 {
        Seq::empty()
    } else if count == 1 {
        seq![Band { entity: 0, top: 0, height, show_volume: true }]
    } else if count > height {
        seq![Band { entity: 0, top: 0, height, show_volume: height >= FULL_BLOCK_ROWS }]
    } else {
        let chunk = height as int / count as int;
        Seq::new(
            count,
            |i: int|
                Band {
                    entity: i as usize,
                    top: (i * chunk) as u16,
                    height: if i == count - 1 {
                        (height - chunk * (count - 1)) as u16
                    } else {
                        chunk as u16
                    },
                    show_volume: (if i == count - 1 {
                        (height - chunk * (count - 1)) as u16
                    } else {
                        chunk as u16
                    }) >= FULL_BLOCK_ROWS,
                },
        )
    }
}

/// Splits a now-playing region `height` rows tall among `count` speakers.
pub fn now_playing_layout(count: usize, height: u16) -> (r: Vec<Band>)
    ensures
        r@ == layout_spec(count as nat, height),
{
    let mut bands: Vec<Band> = Vec::new();
    if count == 0 {
        assert(bands@ =~= layout_spec(count as nat, height));
        return bands;
    }
    if count == 1 {
        bands.push(Band { entity: 0, top: 0, height, show_volume: true });
        assert(bands@ =~= layout_spec(count as nat, height));
        return bands;
    }
    if count > height as usize {
        bands.push(Band { entity: 0, top: 0, height, show_volume: height >= FULL_BLOCK_ROWS });
        assert(bands@ =~= layout_spec(count as nat, height));
        return bands;
    }
    let n = count as u16;
    let chunk = height / n;
    assert(chunk as int == height as int / count as int);
    assert(chunk * (count as int) <= height) by (nonlinear_arith)
        requires chunk as int == height as int / count as int, count > 0;
    let mut i: u16 = 0;
    while i < n
        invariant
            n as int == count,
            2 <= count <= height,
            chunk as int == height as int / count as int,
            chunk * (count as int) <= height,
            i <= n,
            bands@ == layout_spec(count as nat, height).take(i as int),
        decreases n - i,
    {
        assert(i * chunk <= height) by (nonlinear_arith)
            requires i < count, chunk * (count as int) <= height, chunk >= 0;
        assert(chunk * (count - 1) <= height) by (nonlinear_arith)
            requires chunk * (count as int) <= height, chunk >= 0;
        let top = i * chunk;
        let h = if i == n - 1 {
            height - chunk * (n - 1)
        } else {
            chunk
        };
        bands.push(Band { entity: i as usize, top, height: h, show_volume: h >= FULL_BLOCK_ROWS });
        assert(bands@ =~= layout_spec(count as nat, height).take(i + 1));
        i += 1;
    }
    assert(layout_spec(count as nat, height).take(i as int) =~= layout_spec(count as nat, height));
    bands
}

/// What a speaker's now-playing block shows.
#[derive(Debug, PartialEq)]
pub struct TrackView {
    /// The speaker's id, indented, as the block's first line.
    pub label: String,
    /// The track, when there is one; else the block says nothing plays.
    pub track: Option<TrackLines>,
}

/// The lines about a track.
#[derive(Debug, PartialEq)]
pub struct TrackLines {
    pub title: String,
    pub artist: String,
    pub album: String,
    /// The gauge's fill is `progress_num / progress_den`, between 0 and 1.
    pub progress_num: u64,
    pub progress_den: u64,
    /// `elapsed / total`, each as `m:ss`, indented.
    pub time_text: String,
    /// The volume gauge's level out of 100 and its label, when shown.
    pub volume: Option<(u8, String)>,
}

/// The fill of the progress gauge: the position over the length, held at
/// 1, or 0 for a track of no length.
pub open spec fn progress_spec(t: Track) -> (u64, u64) {
    if t.duration > 0 {
        (if t.position < t.duration { t.position } else { t.duration }, t.duration)
    } else {
        (0, 1)
    }
}

/// Whether `v` is the block for speaker `s`, with the volume gauge when
/// `show_volume` holds.
pub open spec fn track_view_spec(s: Speaker, show_volume: bool, v: TrackView) -> bool {
    &&& v.label@ == "  "@ + speaker_id_of(s) + " "@
    &&& match s.track {
        None => v.track is None,
        Some(t) => v.track matches Some(l) && {
            &&& l.title@ == t.title@
            &&& l.artist@ == t.artist@
            &&& l.album@ == t.album@
            &&& (l.progress_num, l.progress_den) == progress_spec(t)
            &&& l.time_text@ == "    "@ + clock_text(t.position as nat) + " / "@ + clock_text(
                t.duration as nat,
            )
            &&& if show_volume {
                l.volume matches Some(g) && g.0 == (if s.volume > 100 { 100 } else { s.volume })
                    && g.1@ == "Vol: "@ + decimal_text(s.volume as nat)
            } else {
                l.volume is None
            }
        },
    }
}

/// The now-playing block for `s`.
pub fn track_view(s: &Speaker, show_volume: bool) -> (r: TrackView)
    ensures
        track_view_spec(*s, show_volume, r),
{
    let mut label = String::from_str("  ");
    label.append(id_of(s).as_str());
    label.append(" ");
    let track = match &s.track {
        None => None,
        Some(t) => {
            let (num, den) = if t.duration > 0 {
                (if t.position < t.duration { t.position } else { t.duration }, t.duration)
            } else {
                (0, 1)
            };
            let mut time_text = String::from_str("    ");
            push_clock(&mut time_text, t.position);
            time_text.append(" / ");
            push_clock(&mut time_text, t.duration);
            let volume = if show_volume {
                let mut vl = String::from_str("Vol: ");
                push_decimal(&mut vl, s.volume as u64);
                Some((if s.volume > 100 { 100 } else { s.volume }, vl))
            } else {
                None
            };
            Some(
                TrackLines {
                    title: t.title.clone(),
                    artist: t.artist.clone(),
                    album: t.album.clone(),
                    progress_num: num,
                    progress_den: den,
                    time_text,
                    volume,
                },
            )
        },
    };
    TrackView { label, track }
}

/// The status line at time `now`: the status text after a space, bright
/// while there is something to say.
pub fn status_line(app: &App, now: u64) -> (r: Span)
    ensures
        r@ == (" "@ + app.status_spec(now), if app.status_spec(now).len() == 0 {
            Tone::Dim
        } else {
            Tone::Accent
        }),
{
    let msg = app.status_at(now);
    let empty = msg.as_str().unicode_len() == 0;
    let mut t = String::from_str(" ");
    t.append(msg.as_str());
    Span { text: t, tone: if empty { Tone::Dim } else { Tone::Accent } }
}

/// What the bottom bar shows.
#[derive(Debug, PartialEq)]
pub enum HelpBar {
    /// The command line with the completion offered, if any.
    Command { input: String, hint: Option<String> },
    /// The volume prompt.
    Volume { input: String },
    /// The key legend.
    Legend,
}

/// The bottom bar: the command line first, then the volume prompt, else the
/// key legend.
pub fn help_bar(app: &App) -> (r: HelpBar)
    ensures
        match app.command_input {
            Some(c) => r matches HelpBar::Command { input, hint } && input@ == c@ && match hint {
                Some(g) => suggest_spec(c@, names_of(app.playlists@)) matches Some(x) && g@
                    == ghost_text(x),
                None => suggest_spec(c@, names_of(app.playlists@)) is None,
            },
            None => match app.volume_input {
                Some(v) => r matches HelpBar::Volume { input } && input@ == v@,
                None => r is Legend,
            },
        },
{
    match &app.command_input {
        Some(c) => {
            let names = crate::control::playlist_names(&app.playlists);
            let hint = autocomplete(c.as_str(), names.as_slice());
            HelpBar::Command { input: c.clone(), hint }
        },
        None => match &app.volume_input {
            Some(v) => HelpBar::Volume { input: v.clone() },
            None => HelpBar::Legend,
        },
    }
}

} // verus!
