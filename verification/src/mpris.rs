//! Media-player (MPRIS) state as renderers see it: playback states, the
//! choice among players, which subscribers need a fresh snapshot, artwork
//! URL normalisation, data-URI decoding, cache keys and log summaries.

use vstd::prelude::*;
use base64::Engine;
use sha2::Digest;
use crate::text::{byte_length_of, chars_have_at, chars_of, debug_escaped, debug_quote, decimal,
    has_at, hex_fixed, owned, push_char, push_decimal, push_hex_fixed, push_str, str_eq,
    string_from_utf8};

verus! {

pub const MPRIS_PREFIX: &'static str = "org.mpris.MediaPlayer2.";

pub const STATE_STOPPED: u32 = 0;

pub const STATE_PLAYING: u32 = 1;

pub const STATE_PAUSED: u32 = 2;

/// Characters of a player-provided text kept in log lines.
pub const LOG_TEXT_MAX_CHARS: usize = 80;

/// Largest decoded artwork.
pub const MAX_ART_BYTES: usize = 8388608;

/// Largest `data:` artwork URI.
pub const MAX_DATA_URI_BYTES: usize = 12582912;

/// Largest artwork URI of another kind.
pub const MAX_ART_URI_BYTES: usize = 4096;

/// What renderers receive about the current player.
#[derive(Debug, Clone, PartialEq, Eq)]
pub struct MprisSnapshot {
    pub state: u32,
    pub title: String,
    pub artist: String,
    pub album: String,
    pub album_artist: String,
    pub art_url: String,
    pub previous_art_url: String,
}

impl Default for MprisSnapshot {
    fn default() -> (r: Self)
        ensures
            r.state == STATE_STOPPED,
            r.title@.len() == 0 && r.artist@.len() == 0 && r.album@.len() == 0,
            r.album_artist@.len() == 0 && r.art_url@.len() == 0 && r.previous_art_url@.len() == 0,
    {
        MprisSnapshot {
            state: STATE_STOPPED,
            title: String::new(),
            artist: String::new(),
            album: String::new(),
            album_artist: String::new(),
            art_url: String::new(),
            previous_art_url: String::new(),
        }
    }
}

impl MprisSnapshot {
    /// A field-by-field copy.
    pub fn copy(&self) -> (r: Self)
        ensures
            r == *self,
    {
        MprisSnapshot {
            state: self.state,
            title: self.title.clone(),
            artist: self.artist.clone(),
            album: self.album.clone(),
            album_artist: self.album_artist.clone(),
            art_url: self.art_url.clone(),
            previous_art_url: self.previous_art_url.clone(),
        }
    }
}

// ---------------------------------------------------------------------------
// Players and subscribers

pub open spec fn spec_has_media(s: MprisSnapshot) -> bool {
    s.title@.len() > 0 || s.artist@.len() > 0 || s.album@.len() > 0 || s.album_artist@.len() > 0
        || s.art_url@.len() > 0
}

/// Whether the snapshot names anything.
pub fn snapshot_has_media(s: &MprisSnapshot) -> (r: bool)
    ensures
        r == spec_has_media(*s),
{
    chars_of(s.title.as_str()).len() > 0 || chars_of(s.artist.as_str()).len() > 0 || chars_of(
        s.album.as_str(),
    ).len() > 0 || chars_of(s.album_artist.as_str()).len() > 0 || chars_of(s.art_url.as_str()).len()
        > 0
}

/// Index of the first player whose snapshot satisfies `p`.
pub open spec fn first_player(
    players: Seq<(String, MprisSnapshot)>,
    p: spec_fn(MprisSnapshot) -> bool,
) -> Option<int>
    decreases players.len(),
{
    if players.len() == 0 {
        None
    } else if p(players[0].1) {
        Some(0)
    } else {
        match first_player(players.skip(1), p) {
            Some(i) => Some(i + 1),
            None => None,
        }
    }
}

pub open spec fn is_playing(s: MprisSnapshot) -> bool {
    s.state == STATE_PLAYING
}

/// The snapshot to publish: the first playing player, else the first with
/// media, else the first player (players in bus-name order).
pub open spec fn spec_choose(players: Seq<(String, MprisSnapshot)>) -> Option<MprisSnapshot> {
    match first_player(players, |s: MprisSnapshot| is_playing(s)) {
        Some(i) => Some(players[i].1),
        None => match first_player(players, |s: MprisSnapshot| spec_has_media(s)) {
            Some(i) => Some(players[i].1),
            None => if players.len() > 0 {
                Some(players[0].1)
            } else {
                None
            },
        },
    }
}

proof fn lemma_first_player_bound(players: Seq<(String, MprisSnapshot)>, p: spec_fn(MprisSnapshot) -> bool)
    ensures
        match first_player(players, p) {
            Some(i) => 0 <= i < players.len() && p(players[i].1),
            None => true,
        },
    decreases players.len(),
{
    if players.len() > 0 && !p(players[0].1) {
        lemma_first_player_bound(players.skip(1), p);
    }
}

fn find_player(players: &[(String, MprisSnapshot)], playing: bool) -> (r: Option<usize>)
    ensures
        match (if playing {
            first_player(players@, |s: MprisSnapshot| is_playing(s))
        } else {
            first_player(players@, |s: MprisSnapshot| spec_has_media(s))
        }) {
            Some(i) => r == Some(i as usize),
            None => r is None,
        },
{
    let ghost p = if playing {
        |s: MprisSnapshot| is_playing(s)
    } else {
        |s: MprisSnapshot| spec_has_media(s)
    };
    let mut i: usize = 0;
    proof {
        assert(players@.skip(0) =~= players@);
    }
    while i < players.len()
        invariant
            0 <= i <= players@.len(),
            p == (if playing {
                |s: MprisSnapshot| is_playing(s)
            } else {
                |s: MprisSnapshot| spec_has_media(s)
            }),
            first_player(players@, p) == match first_player(players@.skip(i as int), p) {
                Some(j) => Some(j + i),
                None => None,
            },
        decreases players@.len() - i,
    {
        let hit = if playing {
            players[i].1.state == STATE_PLAYING
        } else {
            snapshot_has_media(&players[i].1)
        };
        proof {
            assert(players@.skip(i as int)[0] == players@[i as int]);
            assert(players@.skip(i as int).skip(1) =~= players@.skip(i + 1));
        }
        if hit {
            return Some(i);
        }
        i = i + 1;
    }
    None
}

/// The snapshot to publish from the players, given in bus-name order: the
/// first playing one, else the first with media, else the first, else an
/// empty snapshot.
pub fn choose_snapshot(players: &[(String, MprisSnapshot)]) -> (r: MprisSnapshot)
    ensures
        match spec_choose(players@) {
            Some(s) => r == s,
            None => r.state == STATE_STOPPED && !spec_has_media(r) && r.previous_art_url@.len() == 0,
        },
{
    proof {
        lemma_first_player_bound(players@, |s: MprisSnapshot| is_playing(s));
        lemma_first_player_bound(players@, |s: MprisSnapshot| spec_has_media(s));
    }
    match find_player(players, true) {
        Some(i) => {
            return players[i].1.copy();
        },
        None => {},
    }
    match find_player(players, false) {
        Some(i) => {
            return players[i].1.copy();
        },
        None => {},
    }
    if players.len() > 0 {
        players[0].1.copy()
    } else {
        MprisSnapshot::default()
    }
}

/// Subscribers of `current` whose generation `previous` does not hold for
/// them, in the order of `current`.
pub open spec fn spec_updated(previous: Seq<(String, u64)>, current: Seq<(String, u64)>) -> Seq<
    Seq<char>,
>
    decreases current.len(),
{
    if current.len() == 0 {
        Seq::empty()
    } else {
        let rest = spec_updated(previous, current.drop_last());
        let (id, generation) = current.last();
        if exists|j: int| 0 <= j < previous.len() && previous[j].0@ == id@ && previous[j].1 == generation {
            rest
        } else {
            rest.push(id@)
        }
    }
}

fn holds_pair(previous: &[(String, u64)], id: &String, generation: u64) -> (r: bool)
    ensures
        r == exists|j: int|
            0 <= j < previous@.len() && previous@[j].0@ == id@ && previous@[j].1 == generation,
{
    let mut j: usize = 0;
    while j < previous.len()
        invariant
            0 <= j <= previous@.len(),
            forall|k: int|
                0 <= k < j ==> !(#[trigger] previous@[k].0@ == id@ && previous@[k].1 == generation),
        decreases previous@.len() - j,
    {
        if previous[j].1 == generation && str_eq(previous[j].0.as_str(), id.as_str()) {
            return true;
        }
        j = j + 1;
    }
    false
}

/// Renderers that are new among the subscribers or whose membership
/// generation changed: they need the current snapshot again.
pub fn updated_subscribers(previous: &[(String, u64)], current: &[(String, u64)]) -> (r: Vec<String>)
    ensures
        r@.map_values(|s: String| s@) == spec_updated(previous@, current@),
{
    let mut out: Vec<String> = Vec::new();
    let mut i: usize = 0;
    proof {
        assert(current@.take(0) =~= Seq::<(String, u64)>::empty());
    }
    while i < current.len()
        invariant
            0 <= i <= current@.len(),
            out@.map_values(|s: String| s@) == spec_updated(previous@, current@.take(i as int)),
        decreases current@.len() - i,
    {
        proof {
            assert(current@.take(i + 1).drop_last() =~= current@.take(i as int));
        }
        if !holds_pair(previous, &current[i].0, current[i].1) {
            let ghost before = out@;
            out.push(current[i].0.clone());
            proof {
                assert(out@.map_values(|s: String| s@) =~= before.map_values(|s: String| s@).push(
                    current@[i as int].0@,
                ));
            }
        }
        i = i + 1;
    }
    proof {
        assert(current@.take(current@.len() as int) =~= current@);
    }
    out
}

// ---------------------------------------------------------------------------
// Names, states and log text

/// A well-known name of an MPRIS player: the prefix and something after it.
pub fn is_mpris_name(name: &str) -> (r: bool)
    ensures
        r == (has_at(name@, 0, MPRIS_PREFIX@) && name@.len() > MPRIS_PREFIX@.len()),
{
    let n = chars_of(name);
    let p = chars_of(MPRIS_PREFIX);
    chars_have_at(n.as_slice(), 0, p.as_slice()) && n.len() > p.len()
}

pub open spec fn spec_state_from_status(status: Seq<char>) -> u32 {
    if status == "Playing"@ {
        STATE_PLAYING
    } else if status == "Paused"@ {
        STATE_PAUSED
    } else {
        STATE_STOPPED
    }
}

/// The playback state of an MPRIS `PlaybackStatus` value.
pub fn playback_state_from_status(status: &str) -> (r: u32)
    ensures
        r == spec_state_from_status(status@),
{
    if str_eq(status, "Playing") {
        STATE_PLAYING
    } else if str_eq(status, "Paused") {
        STATE_PAUSED
    } else {
        STATE_STOPPED
    }
}

pub open spec fn spec_state_label(state: u32) -> Seq<char> {
    if state == STATE_PLAYING {
        "Playing"@
    } else if state == STATE_PAUSED {
        "Paused"@
    } else {
        "Stopped"@
    }
}

pub fn playback_state_label(state: u32) -> (r: &'static str)
    ensures
        r@ == spec_state_label(state),
{
    if state == STATE_PLAYING {
        "Playing"
    } else if state == STATE_PAUSED {
        "Paused"
    } else {
        "Stopped"
    }
}

/// At most `LOG_TEXT_MAX_CHARS` characters, and an ellipsis when cut.
pub open spec fn spec_truncate(s: Seq<char>) -> Seq<char> {
    if s.len() > LOG_TEXT_MAX_CHARS {
        s.take(LOG_TEXT_MAX_CHARS as int).push('…')
    } else {
        s
    }
}

pub fn truncate_log_text(value: &str) -> (r: String)
    ensures
        r@ == spec_truncate(value@),
{
    let chars = chars_of(value);
    if chars.len() <= LOG_TEXT_MAX_CHARS {
        return owned(value);
    }
    let mut out = String::new();
    let mut i: usize = 0;
    while i < LOG_TEXT_MAX_CHARS
        invariant
            0 <= i <= LOG_TEXT_MAX_CHARS,
            chars@ == value@,
            chars@.len() > LOG_TEXT_MAX_CHARS,
            out@ == chars@.take(i as int),
        decreases LOG_TEXT_MAX_CHARS - i,
    {
        push_char(&mut out, chars[i]);
        assert(chars@.take(i + 1) =~= chars@.take(i as int).push(chars@[i as int]));
        i = i + 1;
    }
    push_char(&mut out, '…');
    out
}

pub open spec fn contains_seq(s: Seq<char>, pat: Seq<char>) -> bool {
    exists|i: int| 0 <= i <= s.len() && #[trigger] has_at(s, i, pat)
}

fn chars_contain(s: &[char], pat: &[char]) -> (r: bool)
    ensures
        r == contains_seq(s@, pat@),
{
    let mut i: usize = 0;
    while i < s.len()
        invariant
            0 <= i <= s@.len(),
            forall|j: int| 0 <= j < i ==> !(#[trigger] has_at(s@, j, pat@)),
        decreases s@.len() - i,
    {
        if chars_have_at(s, i, pat) {
            return true;
        }
        i = i + 1;
    }
    chars_have_at(s, i, pat)
}

/// What kind of artwork URL a value is, for log lines.
pub open spec fn spec_art_kind(v: Seq<char>) -> Seq<char> {
    if has_at(v, 0, "data:"@) {
        "data"@
    } else if v.len() > 0 && v[0] == '/' {
        "file"@
    } else if contains_seq(v, "://"@) {
        "url"@
    } else {
        "value"@
    }
}

pub open spec fn spec_art_url_summary(v: Seq<char>) -> Seq<char> {
    if v.len() == 0 {
        "none"@
    } else {
        spec_art_kind(v) + "("@ + decimal(crate::text::byte_length(v) as nat) + " bytes)"@
    }
}

/// An artwork URL reduced to its kind and byte length, so that payloads
/// never reach the log.
pub fn art_url_summary(value: &str) -> (r: String)
    ensures
        r@ == spec_art_url_summary(value@),
{
    let v = chars_of(value);
    if v.len() == 0 {
        return owned("none");
    }
    let data = chars_of("data:");
    let sep = chars_of("://");
    let mut out = if chars_have_at(v.as_slice(), 0, data.as_slice()) {
        owned("data")
    } else if v[0] == '/' {
        owned("file")
    } else if chars_contain(v.as_slice(), sep.as_slice()) {
        owned("url")
    } else {
        owned("value")
    };
    push_str(&mut out, "(");
    push_decimal(&mut out, byte_length_of(value) as u64);
    push_str(&mut out, " bytes)");
    out
}

pub open spec fn spec_snapshot_debug(s: MprisSnapshot) -> Seq<char> {
    "state="@ + spec_state_label(s.state) + " title="@ + debug_escaped(spec_truncate(s.title@))
        + " artist="@ + debug_escaped(spec_truncate(s.artist@)) + " art="@ + spec_art_url_summary(
        s.art_url@,
    ) + " previous_art="@ + spec_art_url_summary(s.previous_art_url@)
}

/// One log line describing a snapshot: bounded texts, artwork summaries.
pub fn snapshot_debug(snapshot: &MprisSnapshot) -> (r: String)
    ensures
        r@ == spec_snapshot_debug(*snapshot),
{
    let mut out = owned("state=");
    push_str(&mut out, playback_state_label(snapshot.state));
    push_str(&mut out, " title=");
    let title = truncate_log_text(snapshot.title.as_str());
    let quoted = debug_quote(title.as_str());
    push_str(&mut out, quoted.as_str());
    push_str(&mut out, " artist=");
    let artist = truncate_log_text(snapshot.artist.as_str());
    let quoted = debug_quote(artist.as_str());
    push_str(&mut out, quoted.as_str());
    push_str(&mut out, " art=");
    let art = art_url_summary(snapshot.art_url.as_str());
    push_str(&mut out, art.as_str());
    push_str(&mut out, " previous_art=");
    let previous = art_url_summary(snapshot.previous_art_url.as_str());
    push_str(&mut out, previous.as_str());
    out
}

// ---------------------------------------------------------------------------
// Percent decoding

/// Value of an ASCII hexadecimal digit byte.
pub open spec fn spec_hex_val(b: u8) -> Option<u8> {
    if 48 <= b <= 57 {
        Some((b - 48) as u8)
    } else if 97 <= b <= 102 {
        Some((b - 97 + 10) as u8)
    } else if 65 <= b <= 70 {
        Some((b - 65 + 10) as u8)
    } else {
        None
    }
}

pub fn hex_val(b: u8) -> (r: Option<u8>)
    ensures
        r == spec_hex_val(b),
{
    if 48 <= b && b <= 57 {
        Some(b - 48)
    } else if 97 <= b && b <= 102 {
        Some(b - 97 + 10)
    } else if 65 <= b && b <= 70 {
        Some(b - 65 + 10)
    } else {
        None
    }
}

/// `%XX` sequences replaced by the byte they name; `None` when a `%` is not
/// followed by two hexadecimal digits.
pub open spec fn spec_percent_decode(b: Seq<u8>) -> Option<Seq<u8>>
    decreases b.len(),
{
    if b.len() == 0 {
        Some(Seq::empty())
    } else if b[0] == 37 {
        if b.len() <= 2 {
            None
        } else {
            match (spec_hex_val(b[1]), spec_hex_val(b[2])) {
                (Some(hi), Some(lo)) => match spec_percent_decode(b.skip(3)) {
                    Some(rest) => Some(seq![(hi * 16 + lo) as u8] + rest),
                    None => None,
                },
                _ => None,
            }
        }
    } else {
        match spec_percent_decode(b.skip(1)) {
            Some(rest) => Some(seq![b[0]] + rest),
            None => None,
        }
    }
}

fn percent_decode_slice(bytes: &[u8]) -> (r: Option<Vec<u8>>)
    ensures
        match spec_percent_decode(bytes@) {
            Some(d) => r matches Some(v) && v@ == d,
            None => r is None,
        },
{
    let mut out: Vec<u8> = Vec::new();
    let mut i: usize = 0;
    proof {
        assert(bytes@.skip(0) =~= bytes@);
        assert(out@ + Seq::<u8>::empty() =~= out@);
    }
    while i < bytes.len()
        invariant
            0 <= i <= bytes@.len(),
            spec_percent_decode(bytes@) == match spec_percent_decode(bytes@.skip(i as int)) {
                Some(rest) => Some(out@ + rest),
                None => None,
            },
        decreases bytes@.len() - i,
    {
        let ghost tail = bytes@.skip(i as int);
        assert(tail[0] == bytes@[i as int]);
        if bytes[i] == 37 {
            if bytes.len() - i <= 2 {
                return None;
            }
            assert(tail[1] == bytes@[i + 1] && tail[2] == bytes@[i + 2]);
            let hi = match hex_val(bytes[i + 1]) {
                Some(h) => h,
                None => {
                    return None;
                },
            };
            let lo = match hex_val(bytes[i + 2]) {
                Some(l) => l,
                None => {
                    return None;
                },
            };
            let byte = (hi << 4u8) | lo;
            assert(byte == hi * 16 + lo) by (bit_vector)
                requires
                    hi < 16,
                    lo < 16,
                    byte == (hi << 4u8) | lo,
            ;
            assert(tail.skip(3) =~= bytes@.skip(i + 3));
            let ghost before = out@;
            out.push(byte);
            proof {
                match spec_percent_decode(bytes@.skip(i + 3)) {
                    Some(rest) => {
                        assert(before + (seq![byte] + rest) =~= out@ + rest);
                    },
                    None => {},
                }
            }
            i = i + 3;
        } else {
            assert(tail.skip(1) =~= bytes@.skip(i + 1));
            let ghost before = out@;
            out.push(bytes[i]);
            proof {
                match spec_percent_decode(bytes@.skip(i + 1)) {
                    Some(rest) => {
                        assert(before + (seq![bytes@[i as int]] + rest) =~= out@ + rest);
                    },
                    None => {},
                }
            }
            i = i + 1;
        }
    }
    proof {
        assert(bytes@.skip(bytes@.len() as int) =~= Seq::<u8>::empty());
        assert(out@ + Seq::<u8>::empty() =~= out@);
    }
    Some(out)
}

/// Decodes `%XX` escapes of a URI component into raw bytes.
pub fn percent_decode_bytes(raw: &str) -> (r: Option<Vec<u8>>)
    ensures
        match spec_percent_decode(vstd::utf8::encode_utf8(raw@)) {
            Some(d) => r matches Some(v) && v@ == d,
            None => r is None,
        },
{
    percent_decode_slice(raw.as_bytes())
}

/// The decoded text, when the escapes are well formed and name UTF-8.
pub open spec fn spec_percent_decode_text(s: Seq<char>) -> Option<Seq<char>> {
    match spec_percent_decode(vstd::utf8::encode_utf8(s)) {
        Some(b) => if vstd::utf8::valid_utf8(b) {
            Some(vstd::utf8::decode_utf8(b))
        } else {
            None
        },
        None => None,
    }
}

/// Decodes `%XX` escapes of a URI component into text.
pub fn percent_decode(raw: &str) -> (r: Option<String>)
    ensures
        match spec_percent_decode_text(raw@) {
            Some(d) => r matches Some(s) && s@ == d,
            None => r is None,
        },
{
    match percent_decode_slice(raw.as_bytes()) {
        Some(bytes) => string_from_utf8(bytes),
        None => None,
    }
}

// ---------------------------------------------------------------------------
// Artwork URLs

/// `file://` URLs of this host become paths (escapes decoded where they
/// name text); other values stay as they are.
pub open spec fn spec_normalize_art_url(raw: Seq<char>) -> Seq<char> {
    if !has_at(raw, 0, "file://"@) {
        raw
    } else {
        let rest = raw.skip(7);
        if has_at(rest, 0, "localhost/"@) || (rest.len() > 0 && rest[0] == '/') {
            let path = if has_at(rest, 0, "localhost/"@) {
                seq!['/'] + rest.skip(10)
            } else {
                rest
            };
            match spec_percent_decode_text(path) {
                Some(d) => d,
                None => path,
            }
        } else {
            raw
        }
    }
}

pub fn normalize_art_url(raw: &str) -> (r: String)
    ensures
        r@ == spec_normalize_art_url(raw@),
{
    proof {
        reveal_strlit("file://");
        reveal_strlit("localhost/");
    }
    let chars = chars_of(raw);
    let scheme = chars_of("file://");
    if !chars_have_at(chars.as_slice(), 0, scheme.as_slice()) {
        return owned(raw);
    }
    let localhost = chars_of("localhost/");
    let path = if chars_have_at(chars.as_slice(), 7, localhost.as_slice()) {
        let mut p = String::new();
        push_char(&mut p, '/');
        let tail = crate::text::copy_range(chars.as_slice(), 17, chars.len());
        crate::text::push_chars(&mut p, tail.as_slice());
        proof {
            assert(chars@.skip(7).skip(10) =~= chars@.subrange(17, chars@.len() as int));
            assert(has_at(chars@.skip(7), 0, "localhost/"@)) by {
                assert(chars@.skip(7).subrange(0, 10) =~= chars@.subrange(7, 17));
            }
            assert(p@ =~= seq!['/'] + chars@.skip(7).skip(10));
        }
        p
    } else if chars.len() > 7 && chars[7] == '/' {
        proof {
            assert(!has_at(chars@.skip(7), 0, "localhost/"@)) by {
                if chars@.skip(7).len() >= 10 {
                    assert(chars@.skip(7).subrange(0, 10) =~= chars@.subrange(7, 17));
                }
            }
        }
        let tail = crate::text::copy_range(chars.as_slice(), 7, chars.len());
        let p = crate::text::string_of(tail.as_slice());
        assert(p@ =~= chars@.skip(7));
        p
    } else {
        proof {
            assert(!has_at(chars@.skip(7), 0, "localhost/"@)) by {
                if chars@.skip(7).len() >= 10 {
                    assert(chars@.skip(7).subrange(0, 10) =~= chars@.subrange(7, 17));
                }
            }
        }
        return owned(raw);
    };
    match percent_decode(path.as_str()) {
        Some(decoded) => decoded,
        None => path,
    }
}

/// ASCII lower-casing of one byte.
pub open spec fn ascii_lower(b: u8) -> u8 {
    if 65 <= b <= 90 {
        (b + 32) as u8
    } else {
        b
    }
}

/// `s` starts with `pat`, ignoring ASCII case.
pub open spec fn starts_with_ignore_case(s: Seq<u8>, pat: Seq<u8>) -> bool {
    s.len() >= pat.len() && forall|i: int| 0 <= i < pat.len() ==> #[trigger] ascii_lower(s[i]) == ascii_lower(pat[i])
}

/// The bytes of `data:`.
pub open spec fn data_scheme() -> Seq<u8> {
    seq![100u8, 97, 116, 97, 58]
}

/// The bytes of `data:image/`.
pub open spec fn data_image_scheme() -> Seq<u8> {
    seq![100u8, 97, 116, 97, 58, 105, 109, 97, 103, 101, 47]
}

fn lower_byte(b: u8) -> (r: u8)
    ensures
        r == ascii_lower(b),
{
    if 65 <= b && b <= 90 {
        b + 32
    } else {
        b
    }
}

fn bytes_start_with_ignore_case(s: &[u8], pat: &[u8]) -> (r: bool)
    ensures
        r == starts_with_ignore_case(s@, pat@),
{
    if s.len() < pat.len() {
        return false;
    }
    let mut i: usize = 0;
    while i < pat.len()
        invariant
            0 <= i <= pat@.len(),
            s@.len() >= pat@.len(),
            forall|j: int| 0 <= j < i ==> #[trigger] ascii_lower(s@[j]) == ascii_lower(pat@[j]),
        decreases pat@.len() - i,
    {
        if lower_byte(s[i]) != lower_byte(pat[i]) {
            return false;
        }
        i = i + 1;
    }
    true
}

/// Whether the URI starts with `data:image/`, in any ASCII case.
pub fn is_data_image_uri(raw: &str) -> (r: bool)
    ensures
        r == starts_with_ignore_case(vstd::utf8::encode_utf8(raw@), data_image_scheme()),
{
    let pat: Vec<u8> = vec![100u8, 97, 116, 97, 58, 105, 109, 97, 103, 101, 47];
    assert(pat@ =~= data_image_scheme());
    bytes_start_with_ignore_case(raw.as_bytes(), pat.as_slice())
}

/// The scheme of `raw` as `url::Url::parse` finds it, when `raw` parses
/// as an absolute URL.
pub uninterp spec fn parsed_url_scheme(raw: Seq<char>) -> Option<Seq<char>>;

/// `reqwest::Url::parse(raw)` (the `url` crate's parser) and, on success,
/// the URL's scheme, which its documentation promises lower-cased ASCII.
#[verifier::external_body]
fn url_scheme(raw: &str) -> (r: Option<String>)
    ensures
        match r {
            Some(s) => parsed_url_scheme(raw@) == Some(s@) && forall|i: int|
                0 <= i < s@.len() ==> (#[trigger] s@[i] as u32) < 128 && !('A' <= s@[i] <= 'Z'),
            None => parsed_url_scheme(raw@) is None,
        },
{
    reqwest::Url::parse(raw).ok().map(|url| url.scheme().to_string())
}

/// Whether artwork at `raw`, whose URL scheme (when it parses) is
/// `scheme`, is worth caching: a `data:image/` URI or an `https` URL.
pub fn art_uri_cacheable(raw: &str, scheme: Option<&str>) -> (r: bool)
    ensures
        r == (starts_with_ignore_case(vstd::utf8::encode_utf8(raw@), data_image_scheme()) || (scheme matches Some(
            s,
        ) && s@ == "https"@)),
{
    if is_data_image_uri(raw) {
        return true;
    }
    match scheme {
        Some(s) => str_eq(s, "https"),
        None => false,
    }
}

/// Whether artwork at `raw` is worth caching: a `data:image/` URI, or a
/// URL whose scheme is `https`.
pub fn is_cacheable_art_uri(raw: &str) -> (r: bool)
    ensures
        r == (starts_with_ignore_case(vstd::utf8::encode_utf8(raw@), data_image_scheme())
            || parsed_url_scheme(raw@) == Some("https"@)),
{
    let scheme = url_scheme(raw);
    match scheme {
        Some(s) => art_uri_cacheable(raw, Some(s.as_str())),
        None => art_uri_cacheable(raw, None),
    }
}

/// Whether the URI starts with `data:`, in any ASCII case.
pub fn is_data_uri(raw: &str) -> (r: bool)
    ensures
        r == starts_with_ignore_case(vstd::utf8::encode_utf8(raw@), data_scheme()),
{
    let pat: Vec<u8> = vec![100u8, 97, 116, 97, 58];
    assert(pat@ =~= data_scheme());
    bytes_start_with_ignore_case(raw.as_bytes(), pat.as_slice())
}

pub open spec fn spec_normalize_metadata_art_url(raw: Seq<char>) -> Seq<char> {
    let bytes = vstd::utf8::encode_utf8(raw);
    let len = crate::text::byte_length(raw);
    if starts_with_ignore_case(bytes, data_image_scheme()) {
        if len <= MAX_DATA_URI_BYTES {
            raw
        } else {
            Seq::empty()
        }
    } else if !starts_with_ignore_case(bytes, data_scheme()) && len <= MAX_ART_URI_BYTES {
        spec_normalize_art_url(raw)
    } else {
        Seq::empty()
    }
}

/// The artwork URL a player reports, as the daemon keeps it: bounded image
/// data URIs as they are, other bounded URLs normalised, anything else
/// (other data URIs, oversized values) dropped.
pub fn normalize_metadata_art_url(raw: &str) -> (r: String)
    ensures
        r@ == spec_normalize_metadata_art_url(raw@),
{
    let len = byte_length_of(raw);
    if is_data_image_uri(raw) {
        if len <= MAX_DATA_URI_BYTES {
            return owned(raw);
        }
    } else if !is_data_uri(raw) && len <= MAX_ART_URI_BYTES {
        return normalize_art_url(raw);
    }
    String::new()
}

/// The artwork URL history after a player reports `art_url`: when it
/// differs from the last one, the last one (if any) becomes the previous.
pub fn advance_art_history(art_url: &str, last: &mut String, previous: &mut String)
    ensures
        art_url@ != old(last)@ ==> final(last)@ == art_url@ && final(previous)@ == (if old(
            last,
        )@.len() > 0 {
            old(last)@
        } else {
            old(previous)@
        }),
        art_url@ == old(last)@ ==> final(last)@ == old(last)@ && final(previous)@ == old(
            previous,
        )@,
{
    if !str_eq(art_url, last.as_str()) {
        if chars_of(last.as_str()).len() > 0 {
            *previous = last.clone();
        }
        *last = owned(art_url);
    }
}

// ---------------------------------------------------------------------------
// Data URIs and cache keys

/// Why a data URI yields no artwork.
#[derive(Debug, Clone, Copy, PartialEq, Eq, Structural)]
pub enum ArtError {
    DataUriTooLarge,
    InvalidDataUri,
    UnsupportedMediaType,
    InvalidBase64,
    InvalidPercentEncoding,
    DecodedSizeOutOfRange,
}

/// The pieces of `s` between `sep` bytes (one empty piece for no bytes).
pub open spec fn split_bytes(s: Seq<u8>, sep: u8) -> Seq<Seq<u8>>
    decreases s.len(),
{
    if s.len() == 0 {
        seq![Seq::<u8>::empty()]
    } else {
        let rest = split_bytes(s.drop_last(), sep);
        if s.last() == sep {
            rest.push(Seq::<u8>::empty())
        } else {
            rest.update(rest.len() - 1, rest.last().push(s.last()))
        }
    }
}

proof fn lemma_split_bytes_len(s: Seq<u8>, sep: u8)
    ensures
        split_bytes(s, sep).len() >= 1,
    decreases s.len(),
{
    if s.len() > 0 {
        lemma_split_bytes_len(s.drop_last(), sep);
    }
}

fn split_on(s: &[u8], sep: u8) -> (r: Vec<Vec<u8>>)
    ensures
        r@.len() == split_bytes(s@, sep).len(),
        r@.len() >= 1,
        forall|i: int| 0 <= i < r@.len() ==> #[trigger] r@[i]@ == split_bytes(s@, sep)[i],
{
    let mut parts: Vec<Vec<u8>> = Vec::new();
    let mut cur: Vec<u8> = Vec::new();
    let mut i: usize = 0;
    proof {
        assert(s@.take(0) =~= Seq::<u8>::empty());
    }
    while i < s.len()
        invariant
            0 <= i <= s@.len(),
            split_bytes(s@.take(i as int), sep).len() == parts@.len() + 1,
            forall|j: int| 0 <= j < parts@.len() ==> #[trigger] parts@[j]@ == split_bytes(s@.take(i as int), sep)[j],
            cur@ == split_bytes(s@.take(i as int), sep).last(),
        decreases s@.len() - i,
    {
        proof {
            assert(s@.take(i + 1).drop_last() =~= s@.take(i as int));
            lemma_split_bytes_len(s@.take(i as int), sep);
        }
        if s[i] == sep {
            let mut done: Vec<u8> = Vec::new();
            std::mem::swap(&mut done, &mut cur);
            parts.push(done);
        } else {
            cur.push(s[i]);
        }
        i = i + 1;
    }
    proof {
        assert(s@.take(s@.len() as int) =~= s@);
        lemma_split_bytes_len(s@, sep);
    }
    parts.push(cur);
    parts
}

/// Index of the first `c` in `s`.
pub open spec fn first_index_of(s: Seq<u8>, c: u8) -> Option<int>
    decreases s.len(),
{
    if s.len() == 0 {
        None
    } else if s[0] == c {
        Some(0)
    } else {
        match first_index_of(s.skip(1), c) {
            Some(i) => Some(i + 1),
            None => None,
        }
    }
}

proof fn lemma_first_index_of(s: Seq<u8>, c: u8)
    ensures
        match first_index_of(s, c) {
            Some(i) => 0 <= i < s.len() && s[i] == c,
            None => true,
        },
    decreases s.len(),
{
    if s.len() > 0 && s[0] != c {
        lemma_first_index_of(s.skip(1), c);
    }
}

fn find_byte(s: &[u8], from: usize, c: u8) -> (r: Option<usize>)
    requires
        from <= s@.len(),
    ensures
        match first_index_of(s@.skip(from as int), c) {
            Some(i) => r == Some((i + from) as usize),
            None => r is None,
        },
{
    let mut i = from;
    proof {
        assert(s@.skip(from as int).skip(0) =~= s@.skip(from as int));
    }
    while i < s.len()
        invariant
            from <= i <= s@.len(),
            first_index_of(s@.skip(from as int), c) == match first_index_of(s@.skip(i as int), c) {
                Some(j) => Some(j + i - from),
                None => None,
            },
        decreases s@.len() - i,
    {
        proof {
            assert(s@.skip(i as int)[0] == s@[i as int]);
            assert(s@.skip(i as int).skip(1) =~= s@.skip(i + 1));
        }
        if s[i] == c {
            return Some(i);
        }
        i = i + 1;
    }
    None
}

/// The bytes of `image/`.
pub open spec fn image_type_prefix() -> Seq<u8> {
    seq![105u8, 109, 97, 103, 101, 47]
}

/// The bytes of `image/svg+xml`.
pub open spec fn svg_type() -> Seq<u8> {
    seq![105u8, 109, 97, 103, 101, 47, 115, 118, 103, 43, 120, 109, 108]
}

/// The bytes of `base64`.
pub open spec fn base64_word() -> Seq<u8> {
    seq![98u8, 97, 115, 101, 54, 52]
}

pub open spec fn lower_all(s: Seq<u8>) -> Seq<u8> {
    s.map_values(|b: u8| ascii_lower(b))
}

/// Standard base64 decoding (`base64::engine::general_purpose::STANDARD`),
/// `None` when the input is not valid for that engine.
pub uninterp spec fn base64_standard_decode(input: Seq<u8>) -> Option<Seq<u8>>;

/// `STANDARD.decode(input)` of the base64 crate.
#[verifier::external_body]
fn decode_base64(input: &[u8]) -> (r: Option<Vec<u8>>)
    ensures
        match base64_standard_decode(input@) {
            Some(d) => r matches Some(v) && v@ == d,
            None => r is None,
        },
{
    base64::engine::general_purpose::STANDARD.decode(input).ok()
}

/// The artwork a `data:` URI carries: an image type other than SVG, in
/// base64 (a `base64` parameter in any case) or percent-encoded, of one to
/// `MAX_ART_BYTES` bytes.
pub open spec fn spec_decode_data_image(uri: Seq<u8>) -> Result<Seq<u8>, ArtError> {
    if uri.len() > MAX_DATA_URI_BYTES {
        Err(ArtError::DataUriTooLarge)
    } else if !starts_with_ignore_case(uri, data_scheme()) {
        Err(ArtError::InvalidDataUri)
    } else {
        let rest = uri.skip(5);
        match first_index_of(rest, 44) {
            None => Err(ArtError::InvalidDataUri),
            Some(k) => {
                let meta = rest.take(k);
                let payload = rest.skip(k + 1);
                let params = split_bytes(meta, 59);
                let mime = lower_all(params[0]);
                if !(mime.len() >= 6 && mime.take(6) == image_type_prefix()) || mime == svg_type() {
                    Err(ArtError::UnsupportedMediaType)
                } else {
                    let decoded = if exists|i: int|
                        0 <= i < params.len() && lower_all(#[trigger] params[i]) == base64_word() {
                        match base64_standard_decode(payload) {
                            Some(b) => Ok(b),
                            None => Err(ArtError::InvalidBase64),
                        }
                    } else {
                        match spec_percent_decode(payload) {
                            Some(b) => Ok(b),
                            None => Err(ArtError::InvalidPercentEncoding),
                        }
                    };
                    match decoded {
                        Err(e) => Err(e),
                        Ok(b) => if b.len() == 0 || b.len() > MAX_ART_BYTES {
                            Err(ArtError::DecodedSizeOutOfRange)
                        } else {
                            Ok(b)
                        },
                    }
                }
            },
        }
    }
}

fn lowered(s: &[u8]) -> (r: Vec<u8>)
    ensures
        r@ == lower_all(s@),
{
    let mut out: Vec<u8> = Vec::new();
    let mut i: usize = 0;
    while i < s.len()
        invariant
            0 <= i <= s@.len(),
            out@ == lower_all(s@.take(i as int)),
        decreases s@.len() - i,
    {
        out.push(lower_byte(s[i]));
        assert(lower_all(s@.take(i + 1)) =~= lower_all(s@.take(i as int)).push(ascii_lower(s@[i as int])));
        i = i + 1;
    }
    assert(s@.take(s@.len() as int) =~= s@);
    out
}

fn bytes_equal(a: &[u8], b: &[u8]) -> (r: bool)
    ensures
        r == (a@ == b@),
{
    if a.len() != b.len() {
        return false;
    }
    let mut i: usize = 0;
    while i < a.len()
        invariant
            0 <= i <= a@.len(),
            a@.len() == b@.len(),
            forall|j: int| 0 <= j < i ==> a@[j] == b@[j],
        decreases a@.len() - i,
    {
        if a[i] != b[i] {
            return false;
        }
        i = i + 1;
    }
    assert(a@ =~= b@);
    true
}

fn copy_bytes(s: &[u8], from: usize, to: usize) -> (r: Vec<u8>)
    requires
        from <= to <= s@.len(),
    ensures
        r@ == s@.subrange(from as int, to as int),
{
    let mut out: Vec<u8> = Vec::new();
    let mut i = from;
    while i < to
        invariant
            from <= i <= to,
            to <= s@.len(),
            out@ == s@.subrange(from as int, i as int),
        decreases to - i,
    {
        out.push(s[i]);
        assert(s@.subrange(from as int, i + 1) =~= s@.subrange(from as int, i as int).push(s@[i as int]));
        i = i + 1;
    }
    out
}

/// The artwork bytes of a `data:` URI.
pub fn decode_data_image(uri: &str) -> (r: Result<Vec<u8>, ArtError>)
    ensures
        match spec_decode_data_image(vstd::utf8::encode_utf8(uri@)) {
            Ok(b) => r matches Ok(v) && v@ == b,
            Err(e) => r == Err::<Vec<u8>, ArtError>(e),
        },
{
    let bytes = uri.as_bytes();
    if bytes.len() > MAX_DATA_URI_BYTES {
        return Err(ArtError::DataUriTooLarge);
    }
    if !is_data_uri(uri) {
        return Err(ArtError::InvalidDataUri);
    }
    let ghost rest = bytes@.skip(5);
    let comma = match find_byte(bytes, 5, 44) {
        Some(c) => c,
        None => {
            return Err(ArtError::InvalidDataUri);
        },
    };
    proof {
        lemma_first_index_of(rest, 44);
    }
    let meta = copy_bytes(bytes, 5, comma);
    let payload = copy_bytes(bytes, comma + 1, bytes.len());
    proof {
        assert(meta@ =~= rest.take(comma - 5));
        assert(payload@ =~= rest.skip(comma - 5 + 1));
    }
    let params = split_on(meta.as_slice(), 59);
    let mime = lowered(params[0].as_slice());
    let image: Vec<u8> = vec![105u8, 109, 97, 103, 101, 47];
    let svg: Vec<u8> = vec![105u8, 109, 97, 103, 101, 47, 115, 118, 103, 43, 120, 109, 108];
    assert(image@ =~= image_type_prefix());
    assert(svg@ =~= svg_type());
    let is_image = mime.len() >= 6 && {
        let head = copy_bytes(mime.as_slice(), 0, 6);
        assert(head@ =~= mime@.take(6));
        bytes_equal(head.as_slice(), image.as_slice())
    };
    if !is_image || bytes_equal(mime.as_slice(), svg.as_slice()) {
        return Err(ArtError::UnsupportedMediaType);
    }
    let word: Vec<u8> = vec![98u8, 97, 115, 101, 54, 52];
    assert(word@ =~= base64_word());
    let mut base64 = false;
    let mut i: usize = 0;
    while i < params.len()
        invariant
            0 <= i <= params@.len(),
            params@.len() == split_bytes(meta@, 59).len(),
            forall|j: int| 0 <= j < params@.len() ==> #[trigger] params@[j]@ == split_bytes(meta@, 59)[j],
            word@ == base64_word(),
            base64 <==> exists|j: int|
                0 <= j < i && lower_all(#[trigger] split_bytes(meta@, 59)[j]) == base64_word(),
        decreases params@.len() - i,
    {
        let low = lowered(params[i].as_slice());
        if bytes_equal(low.as_slice(), word.as_slice()) {
            base64 = true;
        }
        i = i + 1;
    }
    let decoded = if base64 {
        match decode_base64(payload.as_slice()) {
            Some(b) => b,
            None => {
                return Err(ArtError::InvalidBase64);
            },
        }
    } else {
        match percent_decode_slice(payload.as_slice()) {
            Some(b) => b,
            None => {
                return Err(ArtError::InvalidPercentEncoding);
            },
        }
    };
    if decoded.len() == 0 || decoded.len() > MAX_ART_BYTES {
        return Err(ArtError::DecodedSizeOutOfRange);
    }
    Ok(decoded)
}

/// SHA-256 of the input (`sha2::Sha256::digest`).
pub uninterp spec fn sha256(input: Seq<u8>) -> Seq<u8>;

/// `Sha256::digest(input)` of the sha2 crate: 32 bytes.
#[verifier::external_body]
fn sha256_digest(input: &[u8]) -> (r: Vec<u8>)
    ensures
        r@ == sha256(input@),
        r@.len() == 32,
{
    sha2::Sha256::digest(input).to_vec()
}

/// Two lowercase hexadecimal digits per byte.
pub open spec fn hex_bytes(s: Seq<u8>) -> Seq<char>
    decreases s.len(),
{
    if s.len() == 0 {
        Seq::empty()
    } else {
        hex_bytes(s.drop_last()) + hex_fixed(s.last() as nat, 2)
    }
}

/// File name stem of the cached artwork of a URI: its SHA-256 in hex.
pub fn art_key(uri: &str) -> (r: String)
    ensures
        r@ == hex_bytes(sha256(vstd::utf8::encode_utf8(uri@))),
{
    let digest = sha256_digest(uri.as_bytes());
    let mut out = String::new();
    let mut i: usize = 0;
    while i < digest.len()
        invariant
            0 <= i <= digest@.len(),
            out@ == hex_bytes(digest@.take(i as int)),
        decreases digest@.len() - i,
    {
        proof {
            assert(digest@.take(i + 1).drop_last() =~= digest@.take(i as int));
        }
        push_hex_fixed(&mut out, digest[i] as u64, 2);
        i = i + 1;
    }
    proof {
        assert(digest@.take(digest@.len() as int) =~= digest@);
    }
    out
}

} // verus!
