//! Snapshots of what the control service reports: speakers, their tracks and
//! the playlists, with the topology roles that a speaker can hold.

use vstd::prelude::*;
use crate::command::lowercase;
use crate::command::lower_of;
use crate::text::same_text;

verus! {

/// What a speaker is playing.
#[derive(Debug, Clone)]
pub struct Track {
    pub title: String,
    pub artist: String,
    pub album: String,
    /// Length in seconds.
    pub duration: u64,
    /// Position in seconds.
    pub position: u64,
}

/// One speaker as last reported.
#[derive(Debug, Clone)]
pub struct Speaker {
    pub name: String,
    /// The id that commands address; the name stands in when there is none.
    pub alias: Option<String>,
    pub ip: String,
    /// Level from 0 to 100.
    pub volume: u8,
    pub muted: bool,
    /// `PLAYING`, `PAUSED_PLAYBACK`, or anything else for idle.
    pub state: String,
    /// Name of the coordinator this speaker follows; its own name for a coordinator.
    pub group_coordinator: Option<String>,
    pub track: Option<Track>,
}

/// A playlist: a short id used in commands and the name shown.
#[derive(Debug, Clone)]
pub struct Playlist {
    pub alias: String,
    pub favorite_name: String,
}

/// Body of a play request.
#[derive(Debug, Clone)]
pub struct PlayRequest {
    pub speaker: String,
    pub playlist: String,
}

/// Body of a request that names one speaker.
#[derive(Debug, Clone)]
pub struct SpeakerRequest {
    pub speaker: String,
}

/// Body of a volume request.
#[derive(Debug, Clone)]
pub struct VolumeRequest {
    pub speaker: String,
    pub volume: u8,
}

impl View for Playlist {
    type V = (Seq<char>, Seq<char>);

    open spec fn view(&self) -> (Seq<char>, Seq<char>) {
        (self.alias@, self.favorite_name@)
    }
}

/// The playlists of `s` as values.
pub open spec fn playlist_views(s: Seq<Playlist>) -> Seq<(Seq<char>, Seq<char>)> {
    s.map_values(|p: Playlist| p@)
}

/// Some playlist of `s` has the display name `title`, ignoring case.
pub open spec fn has_title(s: Seq<Playlist>, title: Seq<char>) -> bool {
    exists|i: int| 0 <= i < s.len() && lower_of((#[trigger] s[i]).favorite_name@) == lower_of(title)
}

/// The playlists that favorites add to `s`: one, with the title as alias and
/// as name, for each title that no playlist of `s` already shows.
pub open spec fn favorite_additions(s: Seq<Playlist>, favorites: Seq<String>) -> Seq<(Seq<char>, Seq<char>)> {
    favorites.filter(|t: String| !has_title(s, t@)).map_values(|t: String| (t@, t@))
}

/// The id by which commands address a speaker: its alias, else its name.
pub open spec fn speaker_id_of(s: Speaker) -> Seq<char> {
    match s.alias {
        Some(a) => a@,
        None => s.name@,
    }
}

/// The speaker leads its own group.
pub open spec fn is_coordinator(s: Speaker) -> bool {
    s.group_coordinator matches Some(c) && c@ == s.name@
}

/// The speaker follows another speaker's group.
pub open spec fn is_follower(s: Speaker) -> bool {
    s.group_coordinator matches Some(c) && c@ != s.name@
}

/// The speaker belongs to no group.
pub open spec fn is_solo(s: Speaker) -> bool {
    s.group_coordinator is None
}

/// The speaker follows the coordinator called `name` (a coordinator follows itself).
pub open spec fn follows(s: Speaker, name: Seq<char>) -> bool {
    s.group_coordinator matches Some(c) && c@ == name
}

/// The speakers that a sequence of references points to.
pub open spec fn referents<'a>(s: Seq<&'a Speaker>) -> Seq<Speaker> {
    s.map_values(|p: &'a Speaker| *p)
}

/// The id by which commands address `s`.
pub fn id_of(s: &Speaker) -> (r: String)
    ensures
        r@ == speaker_id_of(*s),
{
    match &s.alias {
        Some(a) => a.clone(),
        None => s.name.clone(),
    }
}

/// Adds each favorite whose title no playlist shows yet (ignoring case) as a
/// playlist whose alias is its title. The playlists already there decide:
/// two equal new titles are both added.
pub fn merge_favorites(playlists: &mut Vec<Playlist>, favorites: &[String])
    ensures
        playlist_views(final(playlists)@) == playlist_views(old(playlists)@) + favorite_additions(
            old(playlists)@,
            favorites@,
        ),
{
    let ghost base = playlists@;
    let n = playlists.len();
    let mut existing: Vec<String> = Vec::new();
    let mut i: usize = 0;
    while i < n
        invariant
            n == base.len(),
            playlists@ == base,
            i <= n,
            existing@.len() == i,
            forall|k: int| 0 <= k < i ==> (#[trigger] existing@[k])@ == lower_of(base[k].favorite_name@),
        decreases n - i,
    {
        existing.push(lowercase(playlists[i].favorite_name.as_str()));
        i += 1;
    }
    let ghost pred = |t: String| !has_title(base, t@);
    let mut j: usize = 0;
    while j < favorites.len()
        invariant
            n == base.len(),
            existing@.len() == n,
            forall|k: int| 0 <= k < n ==> (#[trigger] existing@[k])@ == lower_of(base[k].favorite_name@),
            pred == (|t: String| !has_title(base, t@)),
            j <= favorites@.len(),
            playlist_views(playlists@) == playlist_views(base) + favorites@.take(j as int).filter(pred).map_values(|t: String| (t@, t@)),
        decreases favorites.len() - j,
    {
        let title = &favorites[j];
        let low = lowercase(title.as_str());
        let mut seen = false;
        let mut k: usize = 0;
        while k < n
            invariant
                existing@.len() == n,
                k <= n,
                seen == exists|m: int| 0 <= m < k && (#[trigger] existing@[m])@ == low@,
            decreases n - k,
        {
            if same_text(existing[k].as_str(), low.as_str()) {
                seen = true;
            }
            k += 1;
        }
        proof {
            if seen {
                let m = choose|m: int| 0 <= m < n && (#[trigger] existing@[m])@ == low@;
                assert(lower_of(base[m].favorite_name@) == lower_of(title@));
            }
            if has_title(base, title@) {
                let m = choose|m: int| 0 <= m < base.len() && lower_of((#[trigger] base[m]).favorite_name@) == lower_of(title@);
                assert(existing@[m]@ == low@);
            }
            favorites@.take(j as int).lemma_filter_push(favorites@[j as int], pred);
            assert(favorites@.take(j + 1) =~= favorites@.take(j as int).push(favorites@[j as int]));
        }
        let ghost before = playlists@;
        if !seen {
            playlists.push(Playlist { alias: title.clone(), favorite_name: title.clone() });
            assert(playlist_views(playlists@) =~= playlist_views(before).push((title@, title@)));
        }
        proof {
            let f0 = favorites@.take(j as int).filter(pred);
            let f1 = favorites@.take(j + 1).filter(pred);
            let g = |t: String| (t@, t@);
            if !seen {
                assert(f1 == f0.push(*title));
                assert(f1.map_values(g) =~= f0.map_values(g).push((title@, title@)));
                assert(playlist_views(playlists@) =~= playlist_views(base) + f1.map_values(g));
            } else {
                assert(f1 == f0);
            }
        }
        j += 1;
    }
    assert(favorites@.take(j as int) =~= favorites@);
}

} // verus!
