//! Play history: recording plays within a retention window and ranking
//! playlists by how often they were played lately.

use vstd::prelude::*;
use vstd::hash_map::StringHashMap;
use vstd::multiset::Multiset;
use vstd::seq_lib::lemma_multiset_commutative;
use crate::model::Playlist;
use crate::text::chars_of;

verus! {

/// Relies on `SystemTime::elapsed`, called on `UNIX_EPOCH`: milliseconds
/// since the Unix epoch by the system clock, 0 for a clock set before it.
/// Nothing is known of the value.
#[verifier::external_body]
pub(crate) fn now_millis() -> u64 {
    std::time::UNIX_EPOCH.elapsed().map(|d| d.as_millis() as u64).unwrap_or(0)
}

/// Seconds since the Unix epoch.
pub fn now_unix() -> u64 {
    now_millis() / 1000
}

/// How far back plays count towards popularity: seven days, in seconds.
pub const RANK_WINDOW_SECS: u64 = 7 * 24 * 3600;

/// How long plays are kept: ninety days, in seconds.
pub const RETENTION_SECS: u64 = 90 * 24 * 3600;

/// One play of a playlist.
#[derive(Debug)]
pub struct PlayEntry {
    /// The playlist's alias.
    pub playlist: String,
    /// Seconds since the Unix epoch.
    pub played_at: u64,
}

impl PlayEntry {
    /// A copy of this play.
    pub fn clone_entry(&self) -> (r: PlayEntry)
        ensures
            r@ == self@,
    {
        PlayEntry { playlist: self.playlist.clone(), played_at: self.played_at }
    }
}

impl Clone for PlayEntry {
    fn clone(&self) -> (r: PlayEntry)
        ensures
            r@ == self@,
    {
        self.clone_entry()
    }
}

impl View for PlayEntry {
    type V = (Seq<char>, u64);

    open spec fn view(&self) -> (Seq<char>, u64) {
        (self.playlist@, self.played_at)
    }
}

/// The plays of `es` as values.
pub open spec fn entry_views(es: Seq<PlayEntry>) -> Seq<(Seq<char>, u64)> {
    es.map_values(|e: PlayEntry| e@)
}

/// The history after a play of `playlist` at `now`: the play appended, and
/// every play no later than `now` minus ninety days dropped.
pub open spec fn after_play(es: Seq<(Seq<char>, u64)>, playlist: Seq<char>, now: u64) -> Seq<(Seq<char>, u64)> {
    es.push((playlist, now)).filter(|e: (Seq<char>, u64)| e.1 > cutoff(now, RETENTION_SECS))
}

/// The earliest time that is too old for a window of `window` seconds
/// ending at `now` (0 when the window reaches past the epoch).
pub open spec fn cutoff(now: u64, window: u64) -> u64 {
    if now >= window {
        (now - window) as u64
    } else {
        0
    }
}

/// How many entries of `es` played `alias` after `cut`.
pub open spec fn recent_count(es: Seq<PlayEntry>, alias: Seq<char>, cut: u64) -> nat
    decreases es.len(),
{
    if es.len() == 0 {
        0
    } else {
        recent_count(es.drop_last(), alias, cut) + if es.last().played_at > cut
            && es.last().playlist@ == alias {
            1nat
        } else {
            0nat
        }
    }
}

/// `m` maps each alias played after `cut` to its number of such plays, and
/// holds no other key.
pub open spec fn counts_match(m: Map<Seq<char>, usize>, es: Seq<PlayEntry>, cut: u64) -> bool {
    &&& forall|a: Seq<char>|
        #![trigger m.contains_key(a)]
        m.contains_key(a) <==> recent_count(es, a, cut) > 0
    &&& forall|a: Seq<char>|
        #![trigger m[a]]
        m.contains_key(a) ==> m[a] == recent_count(es, a, cut)
}

/// `a` comes no later than `b` in character order.
pub open spec fn text_le(a: Seq<char>, b: Seq<char>) -> bool
    decreases a.len(),
{
    if a.len() == 0 {
        true
    } else if b.len() == 0 {
        false
    } else if a[0] != b[0] {
        a[0] < b[0]
    } else {
        text_le(a.drop_first(), b.drop_first())
    }
}

/// `a` may stand before `b` in a popularity ranking: more recent plays
/// first, and aliases in order among equal counts.
pub open spec fn ranks_le(a: Playlist, b: Playlist, es: Seq<PlayEntry>, cut: u64) -> bool {
    let ca = recent_count(es, a.alias@, cut);
    let cb = recent_count(es, b.alias@, cut);
    ca > cb || (ca == cb && text_le(a.alias@, b.alias@))
}

/// `s` is in ranking order.
pub open spec fn ranked(s: Seq<Playlist>, es: Seq<PlayEntry>, cut: u64) -> bool {
    forall|i: int, j: int| 0 <= i < j < s.len() ==> ranks_le(#[trigger] s[i], #[trigger] s[j], es, cut)
}

/// `perm` tells where each playlist of `s` stood in `orig`: each at its own
/// place, and playlists that rank equally in their old relative order.
pub open spec fn stable_arrangement(
    s: Seq<Playlist>,
    orig: Seq<Playlist>,
    perm: Seq<int>,
    es: Seq<PlayEntry>,
    cut: u64,
) -> bool {
    &&& s.len() == orig.len()
    &&& perm.len() == s.len()
    &&& forall|k: int| 0 <= k < s.len() ==> 0 <= #[trigger] perm[k] < orig.len() && s[k] == orig[perm[k]]
    &&& forall|k: int, l: int| 0 <= k < l < s.len() ==> #[trigger] perm[k] != #[trigger] perm[l]
    &&& forall|i: int| 0 <= i < orig.len() ==> #[trigger] covers(perm, i)
    &&& forall|k: int, l: int|
        0 <= k < l < s.len() && ranks_le(#[trigger] s[l], #[trigger] s[k], es, cut) ==> perm[k]
            < perm[l]
}

/// Some place of `perm` holds `i`.
pub open spec fn covers(perm: Seq<int>, i: int) -> bool {
    exists|k: int| 0 <= k < perm.len() && perm[k] == i
}

proof fn lemma_text_le_total(a: Seq<char>, b: Seq<char>)
    ensures
        text_le(a, b) || text_le(b, a),
    decreases a.len(),
{
    if a.len() > 0 && b.len() > 0 && a[0] == b[0] {
        lemma_text_le_total(a.drop_first(), b.drop_first());
    }
}

proof fn lemma_text_le_trans(a: Seq<char>, b: Seq<char>, c: Seq<char>)
    requires
        text_le(a, b),
        text_le(b, c),
    ensures
        text_le(a, c),
    decreases a.len(),
{
    if a.len() > 0 && b.len() > 0 && c.len() > 0 && a[0] == b[0] && b[0] == c[0] {
        lemma_text_le_trans(a.drop_first(), b.drop_first(), c.drop_first());
    }
}

proof fn lemma_ranks_total(a: Playlist, b: Playlist, es: Seq<PlayEntry>, cut: u64)
    ensures
        ranks_le(a, b, es, cut) || ranks_le(b, a, es, cut),
{
    lemma_text_le_total(a.alias@, b.alias@);
}

proof fn lemma_ranks_trans(a: Playlist, b: Playlist, c: Playlist, es: Seq<PlayEntry>, cut: u64)
    requires
        ranks_le(a, b, es, cut),
        ranks_le(b, c, es, cut),
    ensures
        ranks_le(a, c, es, cut),
{
    if recent_count(es, a.alias@, cut) == recent_count(es, b.alias@, cut) && recent_count(
        es,
        b.alias@,
        cut,
    ) == recent_count(es, c.alias@, cut) {
        lemma_text_le_trans(a.alias@, b.alias@, c.alias@);
    }
}

/// Whether `a` comes no later than `b` in character order.
fn text_le_exec(a: &[char], b: &[char]) -> (r: bool)
    ensures
        r == text_le(a@, b@),
{
    let mut i: usize = 0;
    assert(a@.skip(0) =~= a@);
    assert(b@.skip(0) =~= b@);
    loop
        invariant
            i <= a@.len(),
            i <= b@.len(),
            text_le(a@, b@) == text_le(a@.skip(i as int), b@.skip(i as int)),
        decreases a.len() - i,
    {
        if i == a.len() {
            return true;
        }
        if i == b.len() {
            return false;
        }
        assert(a@.skip(i as int)[0] == a@[i as int]);
        assert(b@.skip(i as int)[0] == b@[i as int]);
        if a[i] != b[i] {
            return a[i] < b[i];
        }
        assert(a@.skip(i as int).drop_first() =~= a@.skip(i + 1));
        assert(b@.skip(i as int).drop_first() =~= b@.skip(i + 1));
        i += 1;
    }
}

/// How often each playlist alias was played after `now` minus seven days.
/// An alias with no such play has no key.
pub fn play_counts_7d_from(entries: &[PlayEntry], now: u64) -> (r: StringHashMap<usize>)
    ensures
        counts_match(r@, entries@, cutoff(now, RANK_WINDOW_SECS)),
{
    let cut = now.saturating_sub(RANK_WINDOW_SECS);
    let ghost es = entries@;
    let mut counts: StringHashMap<usize> = StringHashMap::new();
    let mut i: usize = 0;
    while i < entries.len()
        invariant
            i <= es.len(),
            es == entries@,
            cut == cutoff(now, RANK_WINDOW_SECS),
            forall|a: Seq<char>|
                #![trigger counts@.contains_key(a)]
                counts@.contains_key(a) <==> recent_count(es.take(i as int), a, cut) > 0,
            forall|a: Seq<char>|
                #![trigger counts@[a]]
                counts@.contains_key(a) ==> counts@[a] == recent_count(es.take(i as int), a, cut),
            forall|a: Seq<char>| #[trigger] recent_count(es.take(i as int), a, cut) <= i,
        decreases entries.len() - i,
    {
        let e = &entries[i];
        proof {
            assert(es.take(i + 1).drop_last() =~= es.take(i as int));
            assert(es.take(i + 1).last() == es[i as int]);
            assert forall|a: Seq<char>| #[trigger] recent_count(es.take(i + 1), a, cut) <= i + 1 by {
                assert(recent_count(es.take(i as int), a, cut) <= i);
            }
        }
        if e.played_at > cut {
            let c: usize = match counts.get(e.playlist.as_str()) {
                Some(v) => *v,
                None => 0,
            };
            assert(c == recent_count(es.take(i as int), e.playlist@, cut));
            counts.insert(e.playlist.clone(), c + 1);
        }
        i += 1;
    }
    assert(es.take(i as int) =~= es);
    counts
}

/// How often each alias was played in the last seven days.
pub fn play_counts_7d(entries: &[PlayEntry]) -> (r: StringHashMap<usize>)
    ensures
        exists|now: u64| counts_match(r@, entries@, #[trigger] cutoff(now, RANK_WINDOW_SECS)),
{
    play_counts_7d_from(entries, now_unix())
}

proof fn lemma_insert_multiset(s: Seq<Playlist>, pos: int, x: Playlist)
    requires
        0 <= pos <= s.len(),
    ensures
        s.insert(pos, x).to_multiset() =~= s.to_multiset().insert(x),
{
    broadcast use vstd::multiset::group_multiset_axioms;
    let a = s.take(pos);
    let b = s.skip(pos);
    assert(s.insert(pos, x) =~= a.push(x) + b);
    assert(s =~= a + b);
    lemma_multiset_commutative(a.push(x), b);
    lemma_multiset_commutative(a, b);
    a.to_multiset_ensures();
}

/// Orders `playlists` by plays after `now` minus seven days, most played
/// first, aliases in character order among equal counts; playlists that
/// rank equally keep their order.
pub fn popularity_sort_from(playlists: &mut Vec<Playlist>, entries: &[PlayEntry], now: u64)
    ensures
        final(playlists)@.to_multiset() == old(playlists)@.to_multiset(),
        ranked(final(playlists)@, entries@, cutoff(now, RANK_WINDOW_SECS)),
        exists|perm: Seq<int>|
            stable_arrangement(
                final(playlists)@,
                old(playlists)@,
                perm,
                entries@,
                cutoff(now, RANK_WINDOW_SECS),
            ),
{
    let counts = play_counts_7d_from(entries, now);
    let ghost cut = cutoff(now, RANK_WINDOW_SECS);
    let ghost es = entries@;
    let ghost orig = playlists@;
    let mut out: Vec<Playlist> = Vec::new();
    let ghost mut from: Seq<int> = Seq::empty();
    proof {
        broadcast use vstd::multiset::group_multiset_axioms;
        out@.to_multiset_ensures();
        assert(out@.to_multiset() =~= Multiset::empty());
        assert(out@.to_multiset().add(playlists@.to_multiset()) =~= orig.to_multiset());
    }
    while playlists.len() > 0
        invariant
            out@.to_multiset().add(playlists@.to_multiset()) == orig.to_multiset(),
            ranked(out@, es, cut),
            playlists@ == orig.take(playlists@.len() as int),
            playlists@.len() + out@.len() == orig.len(),
            from.len() == out@.len(),
            forall|k: int|
                0 <= k < out@.len() ==> playlists@.len() <= #[trigger] from[k] < orig.len() && out@[k]
                    == orig[from[k]],
            forall|k: int, l: int| 0 <= k < l < out@.len() ==> #[trigger] from[k] != #[trigger] from[l],
            forall|i: int| playlists@.len() <= i < orig.len() ==> #[trigger] covers(from, i),
            forall|k: int, l: int|
                0 <= k < l < out@.len() && ranks_le(#[trigger] out@[l], #[trigger] out@[k], es, cut)
                    ==> from[k] < from[l],
            es == entries@,
            cut == cutoff(now, RANK_WINDOW_SECS),
            forall|a: Seq<char>|
                #![trigger counts@.contains_key(a)]
                counts@.contains_key(a) <==> recent_count(es, a, cut) > 0,
            forall|a: Seq<char>|
                #![trigger counts@[a]]
                counts@.contains_key(a) ==> counts@[a] == recent_count(es, a, cut),
        decreases playlists.len(),
    {
        let ghost before = playlists@;
        let x = playlists.pop().unwrap();
        let ghost idx = playlists@.len() as int;
        assert(x == orig[idx]) by {
            assert(before[idx] == orig.take(before.len() as int)[idx]);
        }
        assert(playlists@ =~= orig.take(idx));
        proof {
            broadcast use vstd::multiset::group_multiset_axioms;
            assert(before =~= playlists@.push(x));
            playlists@.to_multiset_ensures();
        }
        let cx: usize = match counts.get(x.alias.as_str()) {
            Some(v) => *v,
            None => 0,
        };
        let xa = chars_of(x.alias.as_str());
        let mut pos: usize = 0;
        let mut stop = false;
        while pos < out.len() && !stop
            invariant
                pos <= out@.len(),
                cx == recent_count(es, x.alias@, cut),
                xa@ == x.alias@,
                stop ==> pos < out@.len() && ranks_le(x, out@[pos as int], es, cut),
                forall|k: int| 0 <= k < pos ==> !ranks_le(x, #[trigger] out@[k], es, cut),
                forall|a: Seq<char>|
                    #![trigger counts@.contains_key(a)]
                    counts@.contains_key(a) <==> recent_count(es, a, cut) > 0,
                forall|a: Seq<char>|
                    #![trigger counts@[a]]
                    counts@.contains_key(a) ==> counts@[a] == recent_count(es, a, cut),
            decreases out.len() - pos + if stop { 0int } else { 1int },
        {
            let y = &out[pos];
            let cy: usize = match counts.get(y.alias.as_str()) {
                Some(v) => *v,
                None => 0,
            };
            let ya = chars_of(y.alias.as_str());
            let x_first = cx > cy || (cx == cy && text_le_exec(xa.as_slice(), ya.as_slice()));
            if x_first {
                stop = true;
            } else {
                pos += 1;
            }
        }
        let ghost old_out = out@;
        proof {
            assert forall|k: int| 0 <= k < pos implies ranks_le(#[trigger] old_out[k], x, es, cut) by {
                lemma_ranks_total(x, old_out[k], es, cut);
            }
            if pos < old_out.len() {
                assert forall|k: int| pos <= k < old_out.len() implies ranks_le(x, #[trigger] old_out[k], es, cut) by {
                    if k > pos {
                        lemma_ranks_trans(x, old_out[pos as int], old_out[k], es, cut);
                    }
                }
            }
        }
        let ghost old_from = from;
        out.insert(pos, x);
        proof {
            from = old_from.insert(pos as int, idx);
            old_from.insert_ensures(pos as int, idx);
            broadcast use vstd::multiset::group_multiset_axioms;
            old_out.insert_ensures(pos as int, x);
            let m = out@;
            assert forall|k: int| 0 <= k < m.len() implies idx <= #[trigger] from[k] < orig.len() && m[k] == orig[from[k]] by {
                if k > pos {
                    assert(from[k] == old_from[k - 1]);
                }
            }
            assert forall|k: int, l: int| 0 <= k < l < m.len() implies #[trigger] from[k] != #[trigger] from[l] by {
                if l < pos {
                } else if l == pos {
                    assert(old_from[k] > idx);
                } else if k < pos {
                    assert(from[l] == old_from[l - 1]);
                } else if k == pos {
                    assert(from[l] == old_from[l - 1]);
                } else {
                    assert(from[k] == old_from[k - 1] && from[l] == old_from[l - 1]);
                }
            }
            assert forall|i: int| idx <= i < orig.len() implies #[trigger] covers(from, i) by {
                if i == idx {
                    assert(from[pos as int] == idx);
                } else {
                    assert(covers(old_from, i));
                    let k0 = choose|k0: int| 0 <= k0 < old_from.len() && old_from[k0] == i;
                    if k0 < pos {
                        assert(from[k0] == i);
                    } else {
                        assert(from[k0 + 1] == i);
                    }
                }
            }
            assert forall|k: int, l: int|
                0 <= k < l < m.len() && ranks_le(#[trigger] m[l], #[trigger] m[k], es, cut)
                    implies from[k] < from[l] by {
                if l < pos {
                    assert(m[k] == old_out[k] && m[l] == old_out[l]);
                } else if l == pos {
                    assert(m[k] == old_out[k]);
                } else if k < pos {
                    assert(m[k] == old_out[k] && m[l] == old_out[l - 1]);
                    assert(from[l] == old_from[l - 1]);
                } else if k == pos {
                    assert(from[l] == old_from[l - 1]);
                } else {
                    assert(m[k] == old_out[k - 1] && m[l] == old_out[l - 1]);
                    assert(from[k] == old_from[k - 1] && from[l] == old_from[l - 1]);
                }
            }
            lemma_insert_multiset(old_out, pos as int, x);
            let n = out@;
            assert forall|i: int, j: int| 0 <= i < j < n.len() implies ranks_le(#[trigger] n[i], #[trigger] n[j], es, cut) by {
                if j < pos {
                    assert(n[i] == old_out[i] && n[j] == old_out[j]);
                } else if j == pos {
                    assert(n[i] == old_out[i]);
                } else if i < pos {
                    assert(n[i] == old_out[i] && n[j] == old_out[j - 1]);
                    lemma_ranks_trans(old_out[i], x, old_out[j - 1], es, cut);
                } else if i == pos {
                    assert(n[j] == old_out[j - 1]);
                } else {
                    assert(n[i] == old_out[i - 1] && n[j] == old_out[j - 1]);
                }
            }
            assert(out@.to_multiset().add(playlists@.to_multiset()) =~= orig.to_multiset());
        }
    }
    proof {
        broadcast use vstd::multiset::group_multiset_axioms;
        assert(playlists@.len() == 0);
        playlists@.to_multiset_ensures();
        assert(playlists@.to_multiset() =~= Multiset::empty());
        assert(out@.to_multiset() =~= orig.to_multiset());
        assert(stable_arrangement(out@, orig, from, es, cut));
    }
    *playlists = out;
}

/// Orders `playlists` by plays of the last seven days, most played first,
/// aliases in character order among equal counts; playlists that rank
/// equally keep their order.
pub fn popularity_sort(playlists: &mut Vec<Playlist>, entries: &[PlayEntry])
    ensures
        final(playlists)@.to_multiset() == old(playlists)@.to_multiset(),
        exists|now: u64|
            ranked(final(playlists)@, entries@, #[trigger] cutoff(now, RANK_WINDOW_SECS))
                && exists|perm: Seq<int>|
                stable_arrangement(
                    final(playlists)@,
                    old(playlists)@,
                    perm,
                    entries@,
                    cutoff(now, RANK_WINDOW_SECS),
                ),
{
    let now = now_unix();
    popularity_sort_from(playlists, entries, now);
}

/// Appends a play of `playlist` at `now` (seconds since the Unix epoch) and
/// drops the plays that are ninety days old or older.
pub fn record_play_at(entries: &mut Vec<PlayEntry>, playlist: &str, now: u64)
    ensures
        entry_views(final(entries)@) == after_play(entry_views(old(entries)@), playlist@, now),
{
    let cut = now.saturating_sub(RETENTION_SECS);
    let ghost keep = |e: (Seq<char>, u64)| e.1 > cutoff(now, RETENTION_SECS);
    let ghost all = entry_views(entries@).push((playlist@, now));
    let mut kept: Vec<PlayEntry> = Vec::new();
    let mut i: usize = 0;
    while i < entries.len()
        invariant
            i <= entries@.len(),
            cut == cutoff(now, RETENTION_SECS),
            keep == (|e: (Seq<char>, u64)| e.1 > cutoff(now, RETENTION_SECS)),
            all == entry_views(entries@).push((playlist@, now)),
            entry_views(kept@) == all.take(i as int).filter(keep),
        decreases entries.len() - i,
    {
        proof {
            all.take(i as int).lemma_filter_push(all[i as int], keep);
            assert(all.take(i + 1) =~= all.take(i as int).push(all[i as int]));
        }
        if entries[i].played_at > cut {
            let ghost before = kept@;
            kept.push(entries[i].clone_entry());
            assert(entry_views(kept@) =~= entry_views(before).push(all[i as int]));
        }
        i += 1;
    }
    proof {
        all.take(i as int).lemma_filter_push(all[i as int], keep);
        assert(all =~= all.take(i as int).push(all[i as int]));
    }
    if now > cut {
        let ghost before = kept@;
        kept.push(PlayEntry { playlist: playlist.to_owned(), played_at: now });
        assert(entry_views(kept@) =~= entry_views(before).push((playlist@, now)));
    }
    *entries = kept;
}

/// Appends a play of `playlist` now and drops the plays that are ninety days
/// old or older.
pub fn record_play(entries: &mut Vec<PlayEntry>, playlist: &str)
    ensures
        exists|now: u64| entry_views(final(entries)@) == #[trigger] after_play(entry_views(old(entries)@), playlist@, now),
{
    record_play_at(entries, playlist, now_unix());
}

/// After a play is recorded, every kept play lies inside the ninety-day
/// window, every earlier play inside it is kept, and the new play is last
/// when it lies inside it itself.
pub proof fn law_record_keeps_window(es: Seq<(Seq<char>, u64)>, playlist: Seq<char>, now: u64)
    ensures
        forall|i: int|
            0 <= i < after_play(es, playlist, now).len() ==> (#[trigger] after_play(es, playlist, now)[i]).1
                > cutoff(now, RETENTION_SECS),
        forall|i: int|
            0 <= i < es.len() && (#[trigger] es[i]).1 > cutoff(now, RETENTION_SECS) ==> after_play(
                es,
                playlist,
                now,
            ).contains(es[i]),
        now > cutoff(now, RETENTION_SECS) ==> after_play(es, playlist, now).last() == (playlist, now),
{
    let keep = |e: (Seq<char>, u64)| e.1 > cutoff(now, RETENTION_SECS);
    let all = es.push((playlist, now));
    all.lemma_filter_len(keep);
    assert forall|i: int| 0 <= i < all.filter(keep).len() implies (#[trigger] all.filter(keep)[i]).1 > cutoff(now, RETENTION_SECS) by {
        all.lemma_filter_pred(keep, i);
    }
    assert forall|i: int| 0 <= i < es.len() && (#[trigger] es[i]).1 > cutoff(now, RETENTION_SECS) implies all.filter(keep).contains(es[i]) by {
        assert(all[i] == es[i]);
        all.lemma_filter_contains(keep, i);
    }
    es.lemma_filter_push((playlist, now), keep);
}

/// The plays of `es` that lie after `cut`.
pub open spec fn fresh_plays(es: Seq<PlayEntry>, cut: u64) -> Seq<PlayEntry> {
    es.filter(|e: PlayEntry| e.played_at > cut)
}

proof fn lemma_count_fresh(es: Seq<PlayEntry>, alias: Seq<char>, cut: u64)
    ensures
        recent_count(es, alias, cut) == recent_count(fresh_plays(es, cut), alias, cut),
    decreases es.len(),
{
    let fresh = |e: PlayEntry| e.played_at > cut;
    if es.len() == 0 {
        reveal(Seq::filter);
    } else {
        let rest = es.drop_last();
        let x = es.last();
        lemma_count_fresh(rest, alias, cut);
        assert(rest.push(x) =~= es);
        rest.lemma_filter_push(x, fresh);
        if fresh(x) {
            assert(rest.filter(fresh).push(x).drop_last() =~= rest.filter(fresh));
        }
    }
}

/// Counts depend only on the plays after the cutoff: two histories with the
/// same such plays, in the same order, give every alias the same count, and
/// so rank playlists alike, whatever stale plays either holds and wherever
/// they stand.
pub proof fn law_stale_plays_not_counted(es1: Seq<PlayEntry>, es2: Seq<PlayEntry>, cut: u64)
    requires
        fresh_plays(es1, cut) == fresh_plays(es2, cut),
    ensures
        forall|alias: Seq<char>| #[trigger] recent_count(es1, alias, cut) == recent_count(es2, alias, cut),
        forall|a: Playlist, b: Playlist| #[trigger] ranks_le(a, b, es1, cut) == ranks_le(a, b, es2, cut),
        forall|s: Seq<Playlist>| #[trigger] ranked(s, es1, cut) == ranked(s, es2, cut),
        forall|s: Seq<Playlist>, orig: Seq<Playlist>, perm: Seq<int>|
            #[trigger] stable_arrangement(s, orig, perm, es1, cut) == stable_arrangement(s, orig, perm, es2, cut),
{
    assert forall|alias: Seq<char>| #[trigger] recent_count(es1, alias, cut) == recent_count(es2, alias, cut) by {
        lemma_count_fresh(es1, alias, cut);
        lemma_count_fresh(es2, alias, cut);
    }
    assert forall|a: Playlist, b: Playlist| #[trigger] ranks_le(a, b, es1, cut) == ranks_le(a, b, es2, cut) by {
        assert(recent_count(es1, a.alias@, cut) == recent_count(es2, a.alias@, cut));
        assert(recent_count(es1, b.alias@, cut) == recent_count(es2, b.alias@, cut));
    }
    assert forall|s: Seq<Playlist>| #[trigger] ranked(s, es1, cut) == ranked(s, es2, cut) by {
        if ranked(s, es1, cut) {
            assert forall|i: int, j: int| 0 <= i < j < s.len() implies ranks_le(#[trigger] s[i], #[trigger] s[j], es2, cut) by {
                assert(ranks_le(s[i], s[j], es1, cut) == ranks_le(s[i], s[j], es2, cut));
            }
        }
        if ranked(s, es2, cut) {
            assert forall|i: int, j: int| 0 <= i < j < s.len() implies ranks_le(#[trigger] s[i], #[trigger] s[j], es1, cut) by {
                assert(ranks_le(s[i], s[j], es1, cut) == ranks_le(s[i], s[j], es2, cut));
            }
        }
    }
    assert forall|s: Seq<Playlist>, orig: Seq<Playlist>, perm: Seq<int>|
        #[trigger] stable_arrangement(s, orig, perm, es1, cut) == stable_arrangement(s, orig, perm, es2, cut) by {
        if stable_arrangement(s, orig, perm, es1, cut) {
            assert forall|k: int, l: int|
                0 <= k < l < s.len() && ranks_le(#[trigger] s[l], #[trigger] s[k], es2, cut) implies perm[k] < perm[l] by {
                assert(ranks_le(s[l], s[k], es1, cut) == ranks_le(s[l], s[k], es2, cut));
            }
        }
        if stable_arrangement(s, orig, perm, es2, cut) {
            assert forall|k: int, l: int|
                0 <= k < l < s.len() && ranks_le(#[trigger] s[l], #[trigger] s[k], es1, cut) implies perm[k] < perm[l] by {
                assert(ranks_le(s[l], s[k], es1, cut) == ranks_le(s[l], s[k], es2, cut));
            }
        }
    }
}

/// Place `i` of `orig` comes before place `j` in a stable ranking: it
/// ranks strictly higher, or equally and stood earlier.
pub open spec fn goes_before(orig: Seq<Playlist>, i: int, j: int, es: Seq<PlayEntry>, cut: u64) -> bool {
    let a = orig[i];
    let b = orig[j];
    ranks_le(a, b, es, cut) && (!ranks_le(b, a, es, cut) || i < j)
}

proof fn lemma_places_increase(s: Seq<Playlist>, orig: Seq<Playlist>, perm: Seq<int>, es: Seq<PlayEntry>, cut: u64)
    requires
        ranked(s, es, cut),
        stable_arrangement(s, orig, perm, es, cut),
    ensures
        forall|k: int, l: int| 0 <= k < l < s.len() ==> goes_before(orig, #[trigger] perm[k], #[trigger] perm[l], es, cut),
{
    assert forall|k: int, l: int| 0 <= k < l < s.len() implies goes_before(orig, #[trigger] perm[k], #[trigger] perm[l], es, cut) by {
        assert(ranks_le(s[k], s[l], es, cut));
        if ranks_le(s[l], s[k], es, cut) {
            assert(perm[k] < perm[l]);
        }
    }
}

proof fn lemma_same_place(
    s1: Seq<Playlist>,
    s2: Seq<Playlist>,
    orig: Seq<Playlist>,
    p1: Seq<int>,
    p2: Seq<int>,
    es: Seq<PlayEntry>,
    cut: u64,
    m: int,
)
    requires
        ranked(s1, es, cut),
        ranked(s2, es, cut),
        stable_arrangement(s1, orig, p1, es, cut),
        stable_arrangement(s2, orig, p2, es, cut),
        0 <= m < s1.len(),
        forall|k: int| 0 <= k < m ==> p1[k] == p2[k],
    ensures
        p1[m] == p2[m],
{
    lemma_places_increase(s1, orig, p1, es, cut);
    lemma_places_increase(s2, orig, p2, es, cut);
    let a = p1[m];
    let b = p2[m];
    if a != b {
        lemma_ranks_total(orig[a], orig[b], es, cut);
        if goes_before(orig, a, b, es, cut) {
            assert(covers(p2, a));
            let l = choose|l: int| 0 <= l < p2.len() && p2[l] == a;
            if l < m {
                assert(p1[l] == a);
                assert(p1[l] != p1[m]);
            } else {
                assert(goes_before(orig, p2[m], p2[l], es, cut));
            }
        } else {
            assert(goes_before(orig, b, a, es, cut));
            assert(covers(p1, b));
            let l = choose|l: int| 0 <= l < p1.len() && p1[l] == b;
            if l < m {
                assert(p2[l] == b);
                assert(p2[l] != p2[m]);
            } else {
                assert(goes_before(orig, p1[m], p1[l], es, cut));
            }
        }
    }
}

proof fn lemma_prefix_agrees(
    s1: Seq<Playlist>,
    s2: Seq<Playlist>,
    orig: Seq<Playlist>,
    p1: Seq<int>,
    p2: Seq<int>,
    es: Seq<PlayEntry>,
    cut: u64,
    m: int,
)
    requires
        ranked(s1, es, cut),
        ranked(s2, es, cut),
        stable_arrangement(s1, orig, p1, es, cut),
        stable_arrangement(s2, orig, p2, es, cut),
        0 <= m <= s1.len(),
    ensures
        forall|k: int| 0 <= k < m ==> p1[k] == p2[k],
    decreases m,
{
    if m > 0 {
        lemma_prefix_agrees(s1, s2, orig, p1, p2, es, cut, m - 1);
        lemma_same_place(s1, s2, orig, p1, p2, es, cut, m - 1);
    }
}

/// A ranking that keeps equally ranked playlists in their old order is
/// unique: any two such arrangements of the same playlists are equal.
pub proof fn law_ranking_determined(
    s1: Seq<Playlist>,
    s2: Seq<Playlist>,
    orig: Seq<Playlist>,
    p1: Seq<int>,
    p2: Seq<int>,
    es: Seq<PlayEntry>,
    cut: u64,
)
    requires
        ranked(s1, es, cut),
        ranked(s2, es, cut),
        stable_arrangement(s1, orig, p1, es, cut),
        stable_arrangement(s2, orig, p2, es, cut),
    ensures
        s1 == s2,
{
    lemma_prefix_agrees(s1, s2, orig, p1, p2, es, cut, s1.len() as int);
    assert forall|k: int| 0 <= k < s1.len() implies s1[k] == s2[k] by {
        assert(p1[k] == p2[k]);
    }
    assert(s1 =~= s2);
}

/// Stale plays never change a popularity ranking: whatever plays at or
/// before the cutoff two histories hold, and wherever they stand, if their
/// later plays agree then ranking the same playlists by either gives the
/// same order.
pub proof fn law_stale_plays_leave_order(
    orig: Seq<Playlist>,
    es1: Seq<PlayEntry>,
    es2: Seq<PlayEntry>,
    cut: u64,
    s1: Seq<Playlist>,
    s2: Seq<Playlist>,
    p1: Seq<int>,
    p2: Seq<int>,
)
    requires
        fresh_plays(es1, cut) == fresh_plays(es2, cut),
        ranked(s1, es1, cut),
        stable_arrangement(s1, orig, p1, es1, cut),
        ranked(s2, es2, cut),
        stable_arrangement(s2, orig, p2, es2, cut),
    ensures
        s1 == s2,
{
    law_stale_plays_not_counted(es1, es2, cut);
    assert(ranked(s2, es1, cut));
    assert(stable_arrangement(s2, orig, p2, es1, cut));
    law_ranking_determined(s1, s2, orig, p1, p2, es1, cut);
}

} // verus!
