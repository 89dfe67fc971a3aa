//! The media players known on the bus, kept in bus-name order, and how a
//! message about them changes the snapshot published to renderers.

use vstd::prelude::*;
use crate::art_cache::{finish_download, reports_running_download, ArtFailures};
use crate::mpris::{
    art_key, choose_snapshot, data_image_scheme, hex_bytes, is_cacheable_art_uri, parsed_url_scheme, sha256,
    spec_choose, spec_has_media, starts_with_ignore_case, MprisSnapshot, STATE_STOPPED,
};
use crate::text::{chars_of, chars_order, compare_chars, lemma_chars_order, lemma_chars_order_trans, str_eq};

verus! {

/// Player names strictly increase.
pub open spec fn names_sorted(players: Seq<(String, MprisSnapshot)>) -> bool {
    forall|i: int, j: int| 0 <= i < j < players.len() ==> chars_order(players[i].0@, players[j].0@) < 0
}

/// Where `name` belongs among sorted players: every name before `p` is
/// smaller, the one at `p` (if any) is not.
pub open spec fn slot_of(players: Seq<(String, MprisSnapshot)>, name: Seq<char>, p: int) -> bool {
    &&& 0 <= p <= players.len()
    &&& forall|i: int| 0 <= i < p ==> chars_order((#[trigger] players[i]).0@, name) < 0
    &&& p < players.len() ==> chars_order(players[p].0@, name) >= 0
}

/// The players after `name` reports `snapshot`, given its slot `p`.
pub open spec fn upserted(
    players: Seq<(String, MprisSnapshot)>,
    p: int,
    name: String,
    snapshot: MprisSnapshot,
) -> Seq<(String, MprisSnapshot)> {
    if p < players.len() && players[p].0@ == name@ {
        players.update(p, (name, snapshot))
    } else {
        players.insert(p, (name, snapshot))
    }
}

/// The players after `name` goes away, given its slot `p`.
pub open spec fn removed(players: Seq<(String, MprisSnapshot)>, p: int, name: Seq<char>) -> Seq<(String, MprisSnapshot)> {
    if p < players.len() && players[p].0@ == name {
        players.remove(p)
    } else {
        players
    }
}

/// Two snapshots that read the same.
pub open spec fn same_snapshot(a: MprisSnapshot, b: MprisSnapshot) -> bool {
    &&& a.state == b.state
    &&& a.title@ == b.title@
    &&& a.artist@ == b.artist@
    &&& a.album@ == b.album@
    &&& a.album_artist@ == b.album_artist@
    &&& a.art_url@ == b.art_url@
    &&& a.previous_art_url@ == b.previous_art_url@
}

/// The snapshot `choose_snapshot` makes of `players`, up to reading the same.
pub open spec fn chosen(players: Seq<(String, MprisSnapshot)>, r: MprisSnapshot) -> bool {
    match spec_choose(players) {
        Some(s) => r == s,
        None => r.state == STATE_STOPPED && !spec_has_media(r) && r.previous_art_url@.len() == 0,
    }
}

/// Whether two snapshots read the same.
pub fn snapshots_equal(a: &MprisSnapshot, b: &MprisSnapshot) -> (r: bool)
    ensures
        r == same_snapshot(*a, *b),
{
    a.state == b.state && str_eq(a.title.as_str(), b.title.as_str()) && str_eq(a.artist.as_str(), b.artist.as_str())
        && str_eq(a.album.as_str(), b.album.as_str()) && str_eq(
        a.album_artist.as_str(),
        b.album_artist.as_str(),
    ) && str_eq(a.art_url.as_str(), b.art_url.as_str()) && str_eq(
        a.previous_art_url.as_str(),
        b.previous_art_url.as_str(),
    )
}

/// The players on the bus by name, in name order, each name once.
pub struct PlayerTable {
    players: Vec<(String, MprisSnapshot)>,
}

impl View for PlayerTable {
    type V = Seq<(String, MprisSnapshot)>;

    closed spec fn view(&self) -> Seq<(String, MprisSnapshot)> {
        self.players@
    }
}

impl PlayerTable {
    #[verifier::type_invariant]
    spec fn well_formed(self) -> bool {
        names_sorted(self.players@)
    }

    /// No players.
    pub fn new() -> (r: Self)
        ensures
            r@ == Seq::<(String, MprisSnapshot)>::empty(),
    {
        PlayerTable { players: Vec::new() }
    }

    /// The players, in name order.
    pub fn players(&self) -> (r: &[(String, MprisSnapshot)])
        ensures
            r@ == self@,
            names_sorted(self@),
    {
        proof {
            use_type_invariant(self);
        }
        self.players.as_slice()
    }

    /// The slot of `name`.
    fn slot(&self, name: &str) -> (p: usize)
        ensures
            slot_of(self@, name@, p as int),
    {
        let key = chars_of(name);
        let mut p: usize = 0;
        while p < self.players.len()
            invariant
                0 <= p <= self@.len(),
                key@ == name@,
                forall|i: int| 0 <= i < p ==> chars_order((#[trigger] self@[i]).0@, name@) < 0,
            decreases self@.len() - p,
        {
            let here = chars_of(self.players[p].0.as_str());
            if compare_chars(here.as_slice(), key.as_slice()) >= 0 {
                return p;
            }
            p = p + 1;
        }
        p
    }

    /// Records the latest snapshot of player `name`.
    pub fn upsert(&mut self, name: String, snapshot: MprisSnapshot)
        ensures
            exists|p: int| slot_of(old(self)@, name@, p) && final(self)@ == upserted(old(self)@, p, name, snapshot),
    {
        proof {
            use_type_invariant(&*self);
        }
        let ghost before = self@;
        let ghost nm = name@;
        let ghost entry = (name, snapshot);
        let p = self.slot(name.as_str());
        let mut players: Vec<(String, MprisSnapshot)> = Vec::new();
        std::mem::swap(&mut players, &mut self.players);
        let same = p < players.len() && str_eq(players[p].0.as_str(), name.as_str());
        if same {
            players[p] = (name, snapshot);
            proof {
                assert forall|i: int, j: int| 0 <= i < j < players@.len() implies chars_order(
                    players@[i].0@,
                    players@[j].0@,
                ) < 0 by {
                    assert(chars_order(before[i].0@, before[j].0@) < 0);
                }
            }
        } else {
            players.insert(p, (name, snapshot));
            proof {
                if p < before.len() {
                    lemma_chars_order(before[p as int].0@, nm);
                }
                assert forall|i: int, j: int| 0 <= i < j < players@.len() implies chars_order(
                    players@[i].0@,
                    players@[j].0@,
                ) < 0 by {
                    if j < p {
                        assert(chars_order(before[i].0@, before[j].0@) < 0);
                    } else if j == p {
                        assert(chars_order(before[i].0@, nm) < 0);
                    } else if i == p {
                        lemma_chars_order(before[p as int].0@, nm);
                        if j - 1 > p {
                            assert(chars_order(before[p as int].0@, before[j - 1].0@) < 0);
                            lemma_chars_order(before[p as int].0@, before[j - 1].0@);
                            lemma_chars_order(nm, before[j - 1].0@);
                            lemma_chars_order_trans(nm, before[p as int].0@, before[j - 1].0@);
                        }
                        lemma_chars_order(nm, before[j - 1].0@);
                    } else if i < p {
                        assert(chars_order(before[i].0@, before[j - 1].0@) < 0);
                    } else {
                        assert(chars_order(before[i - 1].0@, before[j - 1].0@) < 0);
                    }
                }
            }
        }
        proof {
            assert(slot_of(before, nm, p as int));
            assert(players@ == upserted(before, p as int, entry.0, entry.1));
        }
        self.players = players;
    }

    /// Forgets player `name`; true iff it was known.
    pub fn remove(&mut self, name: &str) -> (r: bool)
        ensures
            exists|p: int| slot_of(old(self)@, name@, p) && final(self)@ == removed(old(self)@, p, name@),
            r == exists|i: int| 0 <= i < old(self)@.len() && (#[trigger] old(self)@[i]).0@ == name@,
    {
        proof {
            use_type_invariant(&*self);
        }
        let ghost before = self@;
        let p = self.slot(name);
        proof {
            assert(slot_of(before, name@, p as int));
            assert forall|i: int| 0 <= i < before.len() && (#[trigger] before[i]).0@ == name@ implies i == p by {
                lemma_chars_order(before[i].0@, name@);
                if i > p {
                    assert(chars_order(before[p as int].0@, before[i].0@) < 0);
                    lemma_chars_order(before[p as int].0@, name@);
                }
            }
        }
        if p < self.players.len() && str_eq(self.players[p].0.as_str(), name) {
            let mut players: Vec<(String, MprisSnapshot)> = Vec::new();
            std::mem::swap(&mut players, &mut self.players);
            let _gone = players.remove(p);
            proof {
                assert forall|i: int, j: int| 0 <= i < j < players@.len() implies chars_order(
                    players@[i].0@,
                    players@[j].0@,
                ) < 0 by {
                    let i0 = if i < p { i } else { i + 1 };
                    let j0 = if j < p { j } else { j + 1 };
                    assert(players@[i] == before[i0] && players@[j] == before[j0]);
                }
            }
            self.players = players;
            true
        } else {
            false
        }
    }
}

/// A message from the player watchers.
pub enum PlayerMsg {
    /// Player `name` reports a new snapshot.
    Snapshot { name: String, snapshot: MprisSnapshot },
    /// Player `name` went away.
    Gone(String),
    /// The artwork download of `key` with `request_id` ended.
    ArtReady { key: String, request_id: u64, success: bool },
}

/// Whether a finished download of `key` concerns the artwork of `current`.
pub open spec fn completes_current_art(current: MprisSnapshot, key: Seq<char>) -> bool {
    &&& (starts_with_ignore_case(vstd::utf8::encode_utf8(current.art_url@), data_image_scheme())
        || parsed_url_scheme(current.art_url@) == Some("https"@))
    &&& hex_bytes(sha256(vstd::utf8::encode_utf8(current.art_url@))) == key
}

/// Handles a message: the players and the artwork bookkeeping change as it
/// says, and the published snapshot `current` becomes the one chosen from
/// the players when that differs from it, or when an accepted artwork
/// download should be shown again to subscribers (`has_subscribers`): it
/// succeeded, or it failed for artwork other than the current one. Returns
/// whether to publish.
pub fn handle_player_msg(
    table: &mut PlayerTable,
    current: &mut MprisSnapshot,
    msg: PlayerMsg,
    in_flight: &mut Vec<(String, u64)>,
    failures: &mut ArtFailures,
    now: u64,
    has_subscribers: bool,
) -> (publish: bool)
    ensures
        match msg {
            PlayerMsg::Snapshot { name, snapshot } => (exists|p: int|
                slot_of(old(table)@, name@, p) && final(table)@ == upserted(old(table)@, p, name, snapshot))
                && final(in_flight)@ == old(in_flight)@ && final(failures)@ == old(failures)@,
            PlayerMsg::Gone(name) => (exists|p: int|
                slot_of(old(table)@, name@, p) && final(table)@ == removed(old(table)@, p, name@))
                && final(in_flight)@ == old(in_flight)@ && final(failures)@ == old(failures)@,
            PlayerMsg::ArtReady { key, request_id, success } => {
                let accepted = reports_running_download(old(in_flight)@, key@, request_id);
                let refresh = accepted && (success || !completes_current_art(*old(current), key@));
                &&& final(table)@ == old(table)@
                &&& accepted ==> final(in_flight)@ == old(in_flight)@.remove(
                    crate::art_cache::first_download_of(old(in_flight)@, key@)->0,
                )
                &&& !accepted ==> final(in_flight)@ == old(in_flight)@ && final(failures)@ == old(failures)@
                &&& accepted && success ==> crate::art_cache::failure_forgotten(old(failures)@, final(failures)@, key@)
                &&& accepted && !success ==> crate::art_cache::failure_remembered(
                    old(failures)@,
                    final(failures)@,
                    key@,
                    now,
                )
                &&& publish == (!chosen_same(final(table)@, *old(current)) || (refresh && has_subscribers))
            },
        },
        !(msg is ArtReady) ==> publish == !chosen_same(final(table)@, *old(current)),
        publish ==> chosen(final(table)@, *final(current)),
        !publish ==> *final(current) == *old(current),
{
    let mut refresh_art = false;
    match msg {
        PlayerMsg::Snapshot { name, snapshot } => {
            let ghost nm = name;
            let ghost sn = snapshot;
            table.upsert(name, snapshot);
            assert(exists|p: int| slot_of(old(table)@, nm@, p) && table@ == upserted(old(table)@, p, nm, sn));
        },
        PlayerMsg::Gone(name) => {
            let _known = table.remove(name.as_str());
        },
        PlayerMsg::ArtReady { key, request_id, success } => {
            let completed_current = is_cacheable_art_uri(current.art_url.as_str()) && str_eq(
                art_key(current.art_url.as_str()).as_str(),
                key.as_str(),
            );
            let accepted = finish_download(in_flight, key, request_id, success, failures, now);
            refresh_art = accepted && (success || !completed_current);
        },
    }
    let next = choose_snapshot(table.players());
    proof {
        if spec_choose(table@) is None && chosen_same(table@, *current) {
            lemma_empty_snapshots_same(next, *current);
        }
    }
    let publish = !snapshots_equal(&next, current) || (refresh_art && has_subscribers);
    if publish {
        *current = next;
    }
    publish
}

proof fn lemma_empty_snapshots_same(a: MprisSnapshot, b: MprisSnapshot)
    requires
        a.state == STATE_STOPPED && !spec_has_media(a) && a.previous_art_url@.len() == 0,
        b.state == STATE_STOPPED && !spec_has_media(b) && b.previous_art_url@.len() == 0,
    ensures
        same_snapshot(a, b),
{
    assert(a.title@ =~= b.title@);
    assert(a.artist@ =~= b.artist@);
    assert(a.album@ =~= b.album@);
    assert(a.album_artist@ =~= b.album_artist@);
    assert(a.art_url@ =~= b.art_url@);
    assert(a.previous_art_url@ =~= b.previous_art_url@);
}

/// Whether the snapshot chosen from `players` reads the same as `current`.
pub open spec fn chosen_same(players: Seq<(String, MprisSnapshot)>, current: MprisSnapshot) -> bool {
    match spec_choose(players) {
        Some(s) => same_snapshot(s, current),
        None => current.state == STATE_STOPPED && !spec_has_media(current) && current.previous_art_url@.len() == 0,
    }
}

} // verus!
