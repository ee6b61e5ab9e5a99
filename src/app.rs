//! The dashboard's state: snapshots, selection, focus, input modes and the
//! two timers, with the topology queries over the speaker list.

use vstd::prelude::*;
use crate::model::{
    follows, id_of, referents, is_coordinator, is_follower, is_solo, speaker_id_of, Playlist, Speaker,
};
use crate::text::{clock_text, push_clock, same_text};
use crate::history::now_millis;

verus! {

/// The panel that has the focus.
#[derive(Debug, Clone, Copy, PartialEq, Eq, Structural)]
pub enum Panel {
    Speakers,
    Playlists,
    NowPlaying,
}

/// Everything the dashboard shows. Times are milliseconds since the Unix epoch.
pub struct App {
    pub speakers: Vec<Speaker>,
    pub playlists: Vec<Playlist>,
    pub active_panel: Panel,
    pub speaker_index: usize,
    pub playlist_index: usize,
    pub should_quit: bool,
    pub status_message: Option<String>,
    /// Digits typed for a volume level, while that prompt is open.
    pub volume_input: Option<String>,
    /// The command line, while it is open.
    pub command_input: Option<String>,
    /// When the sleep timer pauses every speaker.
    pub sleep_until: Option<u64>,
    /// When the status message stops showing.
    pub status_until: Option<u64>,
    pub help_open: bool,
}

/// One step forward in a circular list of `n` items.
pub open spec fn next_index(i: usize, n: nat) -> usize {
    if n == 0 {
        i
    } else {
        ((i + 1) % (n as int)) as usize
    }
}

/// One step back in a circular list of `n` items.
pub open spec fn prev_index(i: usize, n: nat) -> usize {
    if n == 0 {
        i
    } else if i == 0 {
        (n - 1) as usize
    } else {
        (i - 1) as usize
    }
}

/// The panel after `p` in the order Speakers, Playlists, Now Playing.
pub open spec fn panel_after(p: Panel) -> Panel {
    match p {
        Panel::Speakers => Panel::Playlists,
        Panel::Playlists => Panel::NowPlaying,
        Panel::NowPlaying => Panel::Speakers,
    }
}

/// Milliseconds in `secs` seconds, held at the largest time.
pub open spec fn millis_after(now: u64, secs: u64) -> u64 {
    if now + secs * 1000 <= u64::MAX {
        (now + secs * 1000) as u64
    } else {
        u64::MAX
    }
}

/// Some speaker of `s` follows a coordinator other than itself.
pub open spec fn has_follower(s: Seq<Speaker>) -> bool {
    exists|i: int| 0 <= i < s.len() && is_follower(#[trigger] s[i])
}

/// A speaker shown in the now-playing panel while the fleet is grouped:
/// one that leads a group or stands alone, with a track.
pub open spec fn is_playing_entity(s: Speaker) -> bool {
    (is_coordinator(s) || is_solo(s)) && s.track is Some
}

impl App {
    /// The length of the list that has the focus (0 for the now-playing panel).
    pub open spec fn focused_len(self) -> nat {
        match self.active_panel {
            Panel::Speakers => self.speakers@.len(),
            Panel::Playlists => self.playlists@.len(),
            Panel::NowPlaying => 0,
        }
    }

    /// What the now-playing panel shows: the selected speaker while no group
    /// exists, else each group leader and lone speaker that has a track.
    pub open spec fn playing_spec(self) -> Seq<Speaker> {
        if has_follower(self.speakers@) {
            self.speakers@.filter(|s: Speaker| is_playing_entity(s))
        } else if self.speaker_index < self.speakers@.len() {
            seq![self.speakers@[self.speaker_index as int]]
        } else {
            Seq::empty()
        }
    }

    /// Each index points into its list, or is 0 for an empty list, each
    /// list's length fits `usize` as any vector's does, and at most one
    /// input prompt is open.
    pub open spec fn wf(&self) -> bool {
        &&& self.speakers@.len() <= usize::MAX
        &&& self.playlists@.len() <= usize::MAX
        &&& (self.speaker_index < self.speakers@.len() || (self.speakers@.len() == 0
            && self.speaker_index == 0))
        &&& (self.playlist_index < self.playlists@.len() || (self.playlists@.len() == 0
            && self.playlist_index == 0))
        &&& !(self.volume_input is Some && self.command_input is Some)
    }

    /// The state after a step forward in the focused list.
    pub open spec fn moved_next(self) -> App {
        match self.active_panel {
            Panel::Speakers => App {
                speaker_index: next_index(self.speaker_index, self.speakers@.len()),
                ..self
            },
            Panel::Playlists => App {
                playlist_index: next_index(self.playlist_index, self.playlists@.len()),
                ..self
            },
            Panel::NowPlaying => self,
        }
    }

    /// The state after a step back in the focused list.
    pub open spec fn moved_prev(self) -> App {
        match self.active_panel {
            Panel::Speakers => App {
                speaker_index: prev_index(self.speaker_index, self.speakers@.len()),
                ..self
            },
            Panel::Playlists => App {
                playlist_index: prev_index(self.playlist_index, self.playlists@.len()),
                ..self
            },
            Panel::NowPlaying => self,
        }
    }

    /// The line of status text at time `now`: a live message first, then a
    /// live sleep countdown, else nothing.
    pub open spec fn status_spec(&self, now: u64) -> Seq<char> {
        if self.status_until matches Some(u) && u > now {
            match self.status_message {
                Some(m) => m@,
                None => Seq::empty(),
            }
        } else {
            match self.sleep_until {
                Some(s) => if s > now {
                    "Sleep: "@ + clock_text(((s - now) / 1000) as nat) + " remaining"@
                } else {
                    Seq::empty()
                },
                None => Seq::empty(),
            }
        }
    }

    pub fn new() -> (r: App)
        ensures
            r.speakers@.len() == 0,
            r.playlists@.len() == 0,
            r.active_panel == Panel::Speakers,
            r.speaker_index == 0,
            r.playlist_index == 0,
            !r.should_quit,
            r.status_message is None,
            r.volume_input is None,
            r.command_input is None,
            r.sleep_until is None,
            r.status_until is None,
            !r.help_open,
            r.wf(),
    {
        App {
            speakers: Vec::new(),
            playlists: Vec::new(),
            active_panel: Panel::Speakers,
            speaker_index: 0,
            playlist_index: 0,
            should_quit: false,
            status_message: None,
            volume_input: None,
            command_input: None,
            sleep_until: None,
            status_until: None,
            help_open: false,
        }
    }

    /// The selected speaker, when the index points into the list.
    pub fn selected_speaker(&self) -> (r: Option<&Speaker>)
        ensures
            match r {
                Some(s) => self.speaker_index < self.speakers@.len() && *s
                    == self.speakers@[self.speaker_index as int],
                None => self.speaker_index >= self.speakers@.len(),
            },
    {
        if self.speaker_index < self.speakers.len() {
            Some(&self.speakers[self.speaker_index])
        } else {
            None
        }
    }

    /// The selected playlist, when the index points into the list.
    pub fn selected_playlist(&self) -> (r: Option<&Playlist>)
        ensures
            match r {
                Some(p) => self.playlist_index < self.playlists@.len() && *p
                    == self.playlists@[self.playlist_index as int],
                None => self.playlist_index >= self.playlists@.len(),
            },
    {
        if self.playlist_index < self.playlists.len() {
            Some(&self.playlists[self.playlist_index])
        } else {
            None
        }
    }

    /// The id of the selected speaker.
    pub fn speaker_id(&self) -> (r: Option<String>)
        ensures
            match r {
                Some(id) => self.speaker_index < self.speakers@.len() && id@ == speaker_id_of(
                    self.speakers@[self.speaker_index as int],
                ),
                None => self.speaker_index >= self.speakers@.len(),
            },
    {
        match self.selected_speaker() {
            Some(s) => Some(id_of(s)),
            None => None,
        }
    }

    /// Moves the focused list's selection one step forward, wrapping at the end.
    pub fn next_in_list(&mut self)
        ensures
            *final(self) == old(self).moved_next(),
    {
        match self.active_panel {
            Panel::Speakers => {
                if self.speakers.len() > 0 {
                    self.speaker_index = ((self.speaker_index as u128 + 1) % (
                    self.speakers.len() as u128)) as usize;
                }
            },
            Panel::Playlists => {
                if self.playlists.len() > 0 {
                    self.playlist_index = ((self.playlist_index as u128 + 1) % (
                    self.playlists.len() as u128)) as usize;
                }
            },
            Panel::NowPlaying => {},
        }
    }

    /// Moves the focused list's selection one step back, wrapping at the start.
    pub fn prev_in_list(&mut self)
        ensures
            *final(self) == old(self).moved_prev(),
    {
        match self.active_panel {
            Panel::Speakers => {
                if self.speakers.len() > 0 {
                    self.speaker_index = if self.speaker_index == 0 {
                        self.speakers.len() - 1
                    } else {
                        self.speaker_index - 1
                    };
                }
            },
            Panel::Playlists => {
                if self.playlists.len() > 0 {
                    self.playlist_index = if self.playlist_index == 0 {
                        self.playlists.len() - 1
                    } else {
                        self.playlist_index - 1
                    };
                }
            },
            Panel::NowPlaying => {},
        }
    }

    /// Moves the focus to the next panel.
    pub fn cycle_panel(&mut self)
        ensures
            *final(self) == (App { active_panel: panel_after(old(self).active_panel), ..*old(self) }),
    {
        self.active_panel = match self.active_panel {
            Panel::Speakers => Panel::Playlists,
            Panel::Playlists => Panel::NowPlaying,
            Panel::NowPlaying => Panel::Speakers,
        };
    }

    /// Shows `msg` for `secs` seconds from `now`.
    pub fn set_status_at(&mut self, msg: &str, secs: u64, now: u64)
        ensures
            final(self).status_message matches Some(m) && m@ == msg@,
            final(self).status_until == Some(millis_after(now, secs)),
            *final(self) == (App {
                status_message: final(self).status_message,
                status_until: final(self).status_until,
                ..*old(self)
            }),
    {
        self.status_message = Some(msg.to_owned());
        self.status_until = Some(
            if secs <= (u64::MAX - now) / 1000 {
                now + secs * 1000
            } else {
                u64::MAX
            },
        );
        assert(secs <= (u64::MAX - now) / 1000 <==> now + secs * 1000 <= u64::MAX) by (nonlinear_arith);
    }

    /// Shows `msg` for `secs` seconds from now.
    pub fn set_status(&mut self, msg: &str, secs: u64)
        ensures
            final(self).status_message matches Some(m) && m@ == msg@,
            exists|now: u64| final(self).status_until == Some(#[trigger] millis_after(now, secs)),
            *final(self) == (App {
                status_message: final(self).status_message,
                status_until: final(self).status_until,
                ..*old(self)
            }),
    {
        let now = now_millis();
        self.set_status_at(msg, secs, now);
    }

    /// The status line at time `now`.
    pub fn status_at(&self, now: u64) -> (r: String)
        ensures
            r@ == self.status_spec(now),
    {
        match self.status_until {
            Some(u) => {
                if u > now {
                    return match &self.status_message {
                        Some(m) => m.clone(),
                        None => String::new(),
                    };
                }
            },
            None => {},
        }
        match self.sleep_until {
            Some(s) => {
                if s > now {
                    let mut r = String::from_str("Sleep: ");
                    push_clock(&mut r, (s - now) / 1000);
                    r.append(" remaining");
                    return r;
                }
            },
            None => {},
        }
        String::new()
    }

    /// The status line now: a live message, else a live sleep countdown as
    /// `Sleep: m:ss remaining`, else the empty string.
    pub fn active_status(&self) -> (r: String)
        ensures
            exists|now: u64| r@ == self.status_spec(now),
    {
        let now = now_millis();
        self.status_at(now)
    }

    /// Whether some speaker follows a coordinator other than itself.
    pub fn is_grouped(&self) -> (r: bool)
        ensures
            r == has_follower(self.speakers@),
    {
        let mut i: usize = 0;
        while i < self.speakers.len()
            invariant
                i <= self.speakers@.len(),
                forall|j: int| 0 <= j < i ==> !is_follower(#[trigger] self.speakers@[j]),
            decreases self.speakers.len() - i,
        {
            let s = &self.speakers[i];
            match &s.group_coordinator {
                Some(c) => {
                    if *c != s.name {
                        return true;
                    }
                },
                None => {},
            }
            i += 1;
        }
        false
    }

    /// The speakers that follow the coordinator called `coordinator_name`,
    /// the coordinator itself included, in list order.
    pub fn group_members_of<'a>(&'a self, coordinator_name: &str) -> (r: Vec<&'a Speaker>)
        ensures
            referents(r@) == self.speakers@.filter(|s: Speaker| follows(s, coordinator_name@)),
    {
        let mut r: Vec<&'a Speaker> = Vec::new();
        assert(referents(r@) =~= Seq::<Speaker>::empty());
        let mut i: usize = 0;
        while i < self.speakers.len()
            invariant
                i <= self.speakers@.len(),
                referents(r@) == self.speakers@.take(i as int).filter((|s: Speaker| follows(s, coordinator_name@))),
            decreases self.speakers.len() - i,
        {
            let s = &self.speakers[i];
            let hit = match &s.group_coordinator {
                Some(c) => same_text(c.as_str(), coordinator_name),
                None => false,
            };
            proof {
                self.speakers@.take(i as int).lemma_filter_push(self.speakers@[i as int], (|s: Speaker| follows(s, coordinator_name@)));
                assert(self.speakers@.take(i + 1) =~= self.speakers@.take(i as int).push(self.speakers@[i as int]));
            }
            let ghost before = r@;
            assert(hit == (|s: Speaker| follows(s, coordinator_name@))(self.speakers@[i as int]));
            if hit {
                r.push(s);
                assert(referents(r@) =~= referents(before).push(*s));
            }
            i += 1;
        }
        assert(self.speakers@.take(i as int) =~= self.speakers@);
        r
    }

    /// The speakers in no group, in list order.
    pub fn solo_speakers(&self) -> (r: Vec<&Speaker>)
        ensures
            referents(r@) == self.speakers@.filter(|s: Speaker| is_solo(s)),
    {
        let mut r: Vec<&Speaker> = Vec::new();
        assert(referents(r@) =~= Seq::<Speaker>::empty());
        let mut i: usize = 0;
        while i < self.speakers.len()
            invariant
                i <= self.speakers@.len(),
                referents(r@) == self.speakers@.take(i as int).filter((|s: Speaker| is_solo(s))),
            decreases self.speakers.len() - i,
        {
            let s = &self.speakers[i];
            proof {
                self.speakers@.take(i as int).lemma_filter_push(self.speakers@[i as int], (|s: Speaker| is_solo(s)));
                assert(self.speakers@.take(i + 1) =~= self.speakers@.take(i as int).push(self.speakers@[i as int]));
            }
            let ghost before = r@;
            assert(s.group_coordinator.is_none() == (|s: Speaker| is_solo(s))(self.speakers@[i as int]));
            if s.group_coordinator.is_none() {
                r.push(s);
                assert(referents(r@) =~= referents(before).push(*s));
            }
            i += 1;
        }
        assert(self.speakers@.take(i as int) =~= self.speakers@);
        r
    }

    /// The speakers that lead their own group, in list order.
    pub fn coordinators(&self) -> (r: Vec<&Speaker>)
        ensures
            referents(r@) == self.speakers@.filter(|s: Speaker| is_coordinator(s)),
    {
        let mut r: Vec<&Speaker> = Vec::new();
        assert(referents(r@) =~= Seq::<Speaker>::empty());
        let mut i: usize = 0;
        while i < self.speakers.len()
            invariant
                i <= self.speakers@.len(),
                referents(r@) == self.speakers@.take(i as int).filter((|s: Speaker| is_coordinator(s))),
            decreases self.speakers.len() - i,
        {
            let s = &self.speakers[i];
            let hit = match &s.group_coordinator {
                Some(c) => *c == s.name,
                None => false,
            };
            proof {
                self.speakers@.take(i as int).lemma_filter_push(self.speakers@[i as int], (|s: Speaker| is_coordinator(s)));
                assert(self.speakers@.take(i + 1) =~= self.speakers@.take(i as int).push(self.speakers@[i as int]));
            }
            let ghost before = r@;
            assert(hit == (|s: Speaker| is_coordinator(s))(self.speakers@[i as int]));
            if hit {
                r.push(s);
                assert(referents(r@) =~= referents(before).push(*s));
            }
            i += 1;
        }
        assert(self.speakers@.take(i as int) =~= self.speakers@);
        r
    }

    /// The speakers that the now-playing panel shows, in list order.
    pub fn playing_entities(&self) -> (r: Vec<&Speaker>)
        ensures
            referents(r@) == self.playing_spec(),
    {
        let mut r: Vec<&Speaker> = Vec::new();
        assert(referents(r@) =~= Seq::<Speaker>::empty());
        if !self.is_grouped() {
            match self.selected_speaker() {
                Some(s) => {
                    r.push(s);
                    assert(referents(r@) =~= seq![*s]);
                },
                None => {},
            }
            return r;
        }
        let mut i: usize = 0;
        while i < self.speakers.len()
            invariant
                i <= self.speakers@.len(),
                referents(r@) == self.speakers@.take(i as int).filter(|s: Speaker| is_playing_entity(s)),
            decreases self.speakers.len() - i,
        {
            let s = &self.speakers[i];
            let leads = match &s.group_coordinator {
                Some(c) => *c == s.name,
                None => true,
            };
            let hit = leads && s.track.is_some();
            proof {
                self.speakers@.take(i as int).lemma_filter_push(self.speakers@[i as int], |s: Speaker| is_playing_entity(s));
                assert(self.speakers@.take(i + 1) =~= self.speakers@.take(i as int).push(self.speakers@[i as int]));
            }
            let ghost before = r@;
            assert(hit == (|s: Speaker| is_playing_entity(s))(self.speakers@[i as int]));
            if hit {
                r.push(s);
                assert(referents(r@) =~= referents(before).push(*s));
            }
            i += 1;
        }
        assert(self.speakers@.take(i as int) =~= self.speakers@);
        r
    }
}

/// Stepping forward and then back in the focused list restores the state
/// when the selection pointed into that list; on an empty list each step
/// leaves the state as it was.
pub proof fn law_next_then_prev(a: App)
    requires
        a.wf(),
    ensures
        a.moved_next().moved_prev() == a,
        a.focused_len() == 0 ==> a.moved_next() == a && a.moved_prev() == a,
{
    match a.active_panel {
        Panel::Speakers => {
            let n = a.speakers@.len();
            if n > 0 {
                let i = a.speaker_index as int;
                if i + 1 < n {
                    assert((i + 1) % (n as int) == i + 1) by (nonlinear_arith)
                        requires 0 <= i + 1 < n;
                } else {
                    assert((i + 1) % (n as int) == 0) by (nonlinear_arith)
                        requires i + 1 == n, n > 0;
                }
            }
        },
        Panel::Playlists => {
            let n = a.playlists@.len();
            if n > 0 {
                let i = a.playlist_index as int;
                if i + 1 < n {
                    assert((i + 1) % (n as int) == i + 1) by (nonlinear_arith)
                        requires 0 <= i + 1 < n;
                } else {
                    assert((i + 1) % (n as int) == 0) by (nonlinear_arith)
                        requires i + 1 == n, n > 0;
                }
            }
        },
        Panel::NowPlaying => {},
    }
}

/// Every speaker holds exactly one role, and the leaders, the lone speakers
/// and the followers together number as many as the speakers.
pub proof fn law_roles_partition(speakers: Seq<Speaker>)
    ensures
        forall|i: int|
            0 <= i < speakers.len() ==> (is_coordinator(#[trigger] speakers[i]) as int) + (
            is_follower(speakers[i]) as int) + (is_solo(speakers[i]) as int) == 1,
        speakers.filter(|s: Speaker| is_coordinator(s)).len() + speakers.filter(
            |s: Speaker| is_solo(s),
        ).len() + speakers.filter(|s: Speaker| is_follower(s)).len() == speakers.len(),
    decreases speakers.len(),
{
    if speakers.len() > 0 {
        let rest = speakers.drop_last();
        let x = speakers.last();
        law_roles_partition(rest);
        assert(rest.push(x) =~= speakers);
        rest.lemma_filter_push(x, |s: Speaker| is_coordinator(s));
        rest.lemma_filter_push(x, |s: Speaker| is_solo(s));
        rest.lemma_filter_push(x, |s: Speaker| is_follower(s));
    } else {
        reveal(Seq::filter);
    }
}

/// A live status message takes the status line whether or not a sleep
/// countdown is running; with neither live, the line is empty.
pub proof fn law_message_masks_countdown(a: App, now: u64)
    ensures
        (a.status_until matches Some(u) && u > now && a.status_message matches Some(m))
            ==> a.status_spec(now) == a.status_message->0@,
        (!(a.status_until matches Some(u) && u > now) && !(a.sleep_until matches Some(s) && s > now))
            ==> a.status_spec(now).len() == 0,
{
}

/// Stepping through the focused list keeps every index pointing into its
/// list.
pub proof fn law_navigation_keeps_wf(a: App)
    requires
        a.wf(),
    ensures
        a.moved_next().wf(),
        a.moved_prev().wf(),
{
    let n = a.speakers@.len();
    let m = a.playlists@.len();
    if n > 0 {
        assert((a.speaker_index + 1) % (n as int) < n) by (nonlinear_arith)
            requires n > 0;
    }
    if m > 0 {
        assert((a.playlist_index + 1) % (m as int) < m) by (nonlinear_arith)
            requires m > 0;
    }
}

} // verus!
