//! Bookkeeping of the media-artwork cache: which artwork to serve, fetch
//! or skip, the bounded table of recent failures with their retry times,
//! the oldest download to cancel, and which cached files to evict.
//! Times are monotonic milliseconds from the caller.

use vstd::prelude::*;
use crate::mpris::{data_image_scheme, is_cacheable_art_uri, is_data_image_uri, parsed_url_scheme, starts_with_ignore_case};
use crate::text::{chars_of, str_eq};

verus! {

/// Largest total size of the cached artwork files.
pub const MAX_ART_CACHE_BYTES: u64 = 67108864;

/// Downloads running at once.
pub const MAX_ART_DOWNLOADS: usize = 2;

/// Failed artwork remembered at once.
pub const MAX_ART_FAILURES: usize = 128;

/// How long a failed artwork is not retried.
pub const ART_FAILURE_TTL_MS: u64 = 30000;

/// The retry time of `key`, if it failed recently (the last entry for it).
pub open spec fn failure_of(entries: Seq<(String, u64)>, key: Seq<char>) -> Option<u64>
    decreases entries.len(),
{
    if entries.len() == 0 {
        None
    } else if entries.last().0@ == key {
        Some(entries.last().1)
    } else {
        failure_of(entries.drop_last(), key)
    }
}

pub open spec fn unique_failure_keys(entries: Seq<(String, u64)>) -> bool {
    forall|i: int, j: int| 0 <= i < j < entries.len() ==> entries[i].0@ != entries[j].0@
}

proof fn lemma_failure_index(entries: Seq<(String, u64)>, i: int)
    requires
        unique_failure_keys(entries),
        0 <= i < entries.len(),
    ensures
        failure_of(entries, entries[i].0@) == Some(entries[i].1),
    decreases entries.len(),
{
    if i < entries.len() - 1 {
        lemma_failure_index(entries.drop_last(), i);
    }
}

proof fn lemma_failure_absent(entries: Seq<(String, u64)>, key: Seq<char>)
    requires
        forall|i: int| 0 <= i < entries.len() ==> (#[trigger] entries[i]).0@ != key,
    ensures
        failure_of(entries, key) is None,
    decreases entries.len(),
{
    if entries.len() > 0 {
        lemma_failure_absent(entries.drop_last(), key);
    }
}

/// After removing the entry at `i`, every other key keeps its retry time
/// and that key has none.
proof fn lemma_failure_remove(entries: Seq<(String, u64)>, i: int, key: Seq<char>)
    requires
        unique_failure_keys(entries),
        0 <= i < entries.len(),
    ensures
        unique_failure_keys(entries.remove(i)),
        failure_of(entries.remove(i), key) == if key == entries[i].0@ {
            None
        } else {
            failure_of(entries, key)
        },
{
    let r = entries.remove(i);
    assert forall|a: int, b: int| 0 <= a < b < r.len() implies r[a].0@ != r[b].0@ by {
        let a0 = if a < i { a } else { a + 1 };
        let b0 = if b < i { b } else { b + 1 };
        assert(r[a] == entries[a0] && r[b] == entries[b0]);
    }
    if key == entries[i].0@ {
        assert forall|k: int| 0 <= k < r.len() implies (#[trigger] r[k]).0@ != key by {
            let k0 = if k < i { k } else { k + 1 };
            assert(r[k] == entries[k0]);
        }
        lemma_failure_absent(r, key);
    } else if exists|k: int| 0 <= k < entries.len() && (#[trigger] entries[k]).0@ == key {
        let k = choose|k: int| 0 <= k < entries.len() && (#[trigger] entries[k]).0@ == key;
        lemma_failure_index(entries, k);
        let k2 = if k < i { k } else { k - 1 };
        assert(r[k2] == entries[k]);
        lemma_failure_index(r, k2);
    } else {
        assert forall|k: int| 0 <= k < r.len() implies (#[trigger] r[k]).0@ != key by {
            let k0 = if k < i { k } else { k + 1 };
            assert(r[k] == entries[k0]);
        }
        lemma_failure_absent(r, key);
        lemma_failure_absent(entries, key);
    }
}

/// The failure table `after` is `before` once `key` failed at `now`: the
/// key may be retried after the time-to-live; every other failure stays,
/// except that a new key over the cap first pushes out the failure with
/// the earliest retry time.
pub open spec fn failure_remembered(before: Seq<(String, u64)>, after: Seq<(String, u64)>, key: Seq<char>, now: u64) -> bool {
    &&& failure_of(after, key) == Some(if now + ART_FAILURE_TTL_MS > u64::MAX {
        u64::MAX
    } else {
        (now + ART_FAILURE_TTL_MS) as u64
    })
    &&& after.len() <= MAX_ART_FAILURES
    &&& failure_of(before, key) is Some || before.len() < MAX_ART_FAILURES ==> forall|other: Seq<char>|
        other != key ==> #[trigger] failure_of(after, other) == failure_of(before, other)
    &&& failure_of(before, key) is None && before.len() >= MAX_ART_FAILURES ==> exists|evicted: Seq<char>|
        {
            &&& #[trigger] failure_of(before, evicted) matches Some(t)
            &&& forall|i: int| 0 <= i < before.len() ==> t <= (#[trigger] before[i]).1
            &&& failure_of(after, evicted) is None
            &&& forall|other: Seq<char>| other != key && other != evicted ==> #[trigger] failure_of(after, other)
                == failure_of(before, other)
        }
}

/// The failure table `after` is `before` with the failure of `key`
/// forgotten and every other failure kept.
pub open spec fn failure_forgotten(before: Seq<(String, u64)>, after: Seq<(String, u64)>, key: Seq<char>) -> bool {
    &&& failure_of(after, key) is None
    &&& forall|other: Seq<char>| other != key ==> #[trigger] failure_of(after, other) == failure_of(before, other)
}

/// Artwork that failed recently, by cache key, with the time from which it
/// may be tried again; at most `MAX_ART_FAILURES` of them.
pub struct ArtFailures {
    entries: Vec<(String, u64)>,
}

impl View for ArtFailures {
    type V = Seq<(String, u64)>;

    closed spec fn view(&self) -> Seq<(String, u64)> {
        self.entries@
    }
}

impl ArtFailures {
    #[verifier::type_invariant]
    spec fn well_formed(self) -> bool {
        &&& unique_failure_keys(self.entries@)
        &&& self.entries@.len() <= MAX_ART_FAILURES
    }

    pub fn new() -> (r: Self)
        ensures
            r@.len() == 0,
    {
        ArtFailures { entries: Vec::new() }
    }

    /// How many failures are remembered: never more than the cap.
    pub fn len(&self) -> (r: usize)
        ensures
            r == self@.len(),
            r <= MAX_ART_FAILURES,
    {
        proof {
            use_type_invariant(self);
        }
        self.entries.len()
    }

    fn index_of(&self, key: &str) -> (r: Option<usize>)
        ensures
            r matches Some(i) ==> i < self@.len() && self@[i as int].0@ == key@ && failure_of(self@, key@)
                == Some(self@[i as int].1),
            r is None ==> failure_of(self@, key@) is None,
    {
        proof {
            use_type_invariant(self);
        }
        let mut i: usize = 0;
        while i < self.entries.len()
            invariant
                0 <= i <= self@.len(),
                unique_failure_keys(self@),
                forall|k: int| 0 <= k < i ==> (#[trigger] self@[k]).0@ != key@,
            decreases self@.len() - i,
        {
            if str_eq(self.entries[i].0.as_str(), key) {
                proof {
                    lemma_failure_index(self@, i as int);
                }
                return Some(i);
            }
            i = i + 1;
        }
        proof {
            lemma_failure_absent(self@, key@);
        }
        None
    }

    /// The retry time of `key`, if it failed recently.
    pub fn retry_at(&self, key: &str) -> (r: Option<u64>)
        ensures
            r == failure_of(self@, key@),
    {
        match self.index_of(key) {
            Some(i) => Some(self.entries[i].1),
            None => None,
        }
    }

    /// Forgets the failure of `key`.
    pub fn forget(&mut self, key: &str)
        ensures
            failure_of(final(self)@, key@) is None,
            forall|other: Seq<char>| other != key@ ==> #[trigger] failure_of(final(self)@, other) == failure_of(old(self)@, other),
    {
        proof {
            use_type_invariant(&*self);
        }
        if let Some(i) = self.index_of(key) {
            let ghost before = self@;
            let mut entries: Vec<(String, u64)> = Vec::new();
            std::mem::swap(&mut entries, &mut self.entries);
            let _gone = entries.remove(i);
            proof {
                lemma_failure_remove(before, i as int, key@);
                assert forall|other: Seq<char>| other != key@ implies #[trigger] failure_of(entries@, other)
                    == failure_of(before, other) by {
                    lemma_failure_remove(before, i as int, other);
                }
            }
            self.entries = entries;
        }
    }

    /// Whether `key` may be tried at `now`: it has no failure, or its retry
    /// time has come, in which case the failure is forgotten.
    pub fn retry_ready(&mut self, key: &str, now: u64) -> (r: bool)
        ensures
            r == match failure_of(old(self)@, key@) {
                None => true,
                Some(at) => at <= now,
            },
            r ==> failure_of(final(self)@, key@) is None,
            !r ==> final(self)@ == old(self)@,
            forall|other: Seq<char>| other != key@ ==> #[trigger] failure_of(final(self)@, other) == failure_of(old(self)@, other),
    {
        match self.retry_at(key) {
            None => true,
            Some(at) => {
                if at > now {
                    false
                } else {
                    self.forget(key);
                    true
                }
            },
        }
    }

    /// Remembers that `key` failed at `now`: it may be retried after the
    /// failure time-to-live. A new key over the cap first pushes out the
    /// failure with the earliest retry time.
    pub fn remember_failure(&mut self, key: String, now: u64)
        ensures
            failure_remembered(old(self)@, final(self)@, key@, now),
    {
        proof {
            use_type_invariant(&*self);
        }
        let retry_at = now.saturating_add(ART_FAILURE_TTL_MS);
        let ghost before = self@;
        let found = self.index_of(key.as_str());
        let mut entries: Vec<(String, u64)> = Vec::new();
        std::mem::swap(&mut entries, &mut self.entries);
        match found {
            Some(i) => {
                let ghost kv = key@;
                entries[i] = (key, retry_at);
                proof {
                    assert forall|a: int, b: int| 0 <= a < b < entries@.len() implies entries@[a].0@ != entries@[b].0@ by {
                        assert(before[a].0@ != before[b].0@);
                    }
                    lemma_failure_index(entries@, i as int);
                    assert forall|other: Seq<char>| other != kv implies #[trigger] failure_of(entries@, other)
                        == failure_of(before, other) by {
                        lemma_failure_remove(before, i as int, other);
                        lemma_failure_remove(entries@, i as int, other);
                        assert(entries@.remove(i as int) =~= before.remove(i as int));
                    }
                }
                self.entries = entries;
            },
            None => {
                let ghost kv = key@;
                let ghost mut evicted: Seq<char> = kv;
                if entries.len() >= MAX_ART_FAILURES {
                    let mut oldest: usize = 0;
                    let mut j: usize = 1;
                    while j < entries.len()
                        invariant
                            entries@ == before,
                            before.len() >= 1,
                            oldest < before.len(),
                            1 <= j <= before.len(),
                            forall|k: int| 0 <= k < j ==> before[oldest as int].1 <= (#[trigger] before[k]).1,
                        decreases before.len() - j,
                    {
                        if entries[j].1 < entries[oldest].1 {
                            oldest = j;
                        }
                        j = j + 1;
                    }
                    proof {
                        evicted = before[oldest as int].0@;
                    }
                    entries.remove(oldest);
                    proof {
                        lemma_failure_index(before, oldest as int);
                        lemma_failure_remove(before, oldest as int, evicted);
                        assert forall|other: Seq<char>| other != evicted implies #[trigger] failure_of(entries@, other)
                            == failure_of(before, other) by {
                            lemma_failure_remove(before, oldest as int, other);
                        }
                        assert forall|k: int| 0 <= k < entries@.len() implies (#[trigger] entries@[k]).0@ != kv by {
                            if entries@[k].0@ == kv {
                                let k0 = if k < oldest { k } else { k + 1 };
                                assert(entries@[k] == before[k0]);
                                lemma_failure_index(before, k0);
                            }
                        }
                    }
                }
                let ghost mid = entries@;
                proof {
                    assert forall|k: int| 0 <= k < mid.len() implies (#[trigger] mid[k]).0@ != kv by {
                        if mid.len() == before.len() {
                            assert(mid == before);
                            if mid[k].0@ == kv {
                                lemma_failure_index(before, k);
                            }
                        }
                    }
                }
                entries.push((key, retry_at));
                proof {
                    assert(entries@.drop_last() =~= mid);
                    assert forall|a: int, b: int| 0 <= a < b < entries@.len() implies entries@[a].0@ != entries@[b].0@ by {
                        if b == mid.len() {
                            assert(mid[a].0@ != kv);
                        } else {
                            assert(mid[a] == entries@[a] && mid[b] == entries@[b]);
                        }
                    }
                    assert forall|other: Seq<char>| other != kv implies #[trigger] failure_of(entries@, other)
                        == failure_of(mid, other) by {
                        assert(entries@.drop_last() =~= mid);
                    }
                    if before.len() >= MAX_ART_FAILURES {
                        assert(failure_of(before, evicted) matches Some(t) && forall|i: int|
                            0 <= i < before.len() ==> t <= (#[trigger] before[i]).1);
                        assert(failure_of(entries@, evicted) is None);
                    }
                }
                self.entries = entries;
            },
        }
    }
}

/// The index of the download started first (least request id), if any.
pub fn oldest_download(in_flight: &[(String, u64)]) -> (r: Option<usize>)
    ensures
        r is None <==> in_flight@.len() == 0,
        r matches Some(i) ==> i < in_flight@.len() && forall|k: int| 0 <= k < in_flight@.len() ==> in_flight@[i as int].1
            <= (#[trigger] in_flight@[k]).1,
{
    if in_flight.len() == 0 {
        return None;
    }
    let mut best: usize = 0;
    let mut j: usize = 1;
    while j < in_flight.len()
        invariant
            best < in_flight@.len(),
            1 <= j <= in_flight@.len(),
            forall|k: int| 0 <= k < j ==> in_flight@[best as int].1 <= (#[trigger] in_flight@[k]).1,
        decreases in_flight@.len() - j,
    {
        if in_flight[j].1 < in_flight[best].1 {
            best = j;
        }
        j = j + 1;
    }
    Some(best)
}

/// The position of the first download of `key` in `in_flight`, if any.
pub open spec fn first_download_of(in_flight: Seq<(String, u64)>, key: Seq<char>) -> Option<int>
    decreases in_flight.len(),
{
    if in_flight.len() == 0 {
        None
    } else if in_flight[0].0@ == key {
        Some(0)
    } else {
        match first_download_of(in_flight.drop_first(), key) {
            Some(i) => Some(i + 1),
            None => None,
        }
    }
}

proof fn lemma_first_download_of(in_flight: Seq<(String, u64)>, key: Seq<char>)
    ensures
        first_download_of(in_flight, key) matches Some(i) ==> 0 <= i < in_flight.len() && in_flight[i].0@ == key
            && forall|m: int| 0 <= m < i ==> (#[trigger] in_flight[m]).0@ != key,
        first_download_of(in_flight, key) is None ==> forall|m: int|
            0 <= m < in_flight.len() ==> (#[trigger] in_flight[m]).0@ != key,
    decreases in_flight.len(),
{
    if in_flight.len() > 0 && in_flight[0].0@ != key {
        let tail = in_flight.drop_first();
        lemma_first_download_of(tail, key);
        match first_download_of(tail, key) {
            Some(j) => {
                assert forall|m: int| 0 <= m < j + 1 implies (#[trigger] in_flight[m]).0@ != key by {
                    if m > 0 {
                        assert(in_flight[m] == tail[m - 1]);
                    }
                }
                assert(in_flight[j + 1] == tail[j]);
            },
            None => {
                assert forall|m: int| 0 <= m < in_flight.len() implies (#[trigger] in_flight[m]).0@ != key by {
                    if m > 0 {
                        assert(in_flight[m] == tail[m - 1]);
                    }
                }
            },
        }
    }
}

/// The position of the first download of `key`.
fn first_download_index(in_flight: &Vec<(String, u64)>, key: &str) -> (r: Option<usize>)
    ensures
        r matches Some(k) ==> k < in_flight@.len() && first_download_of(in_flight@, key@) == Some(k as int),
        r is None ==> first_download_of(in_flight@, key@) is None,
{
    proof {
        lemma_first_download_of(in_flight@, key@);
    }
    let mut k: usize = 0;
    while k < in_flight.len()
        invariant
            0 <= k <= in_flight@.len(),
            forall|m: int| 0 <= m < k ==> (#[trigger] in_flight@[m]).0@ != key@,
            first_download_of(in_flight@, key@) matches Some(i) ==> 0 <= i < in_flight@.len() && in_flight@[i].0@ == key@
                && forall|m: int| 0 <= m < i ==> (#[trigger] in_flight@[m]).0@ != key@,
            first_download_of(in_flight@, key@) is None ==> forall|m: int|
                0 <= m < in_flight@.len() ==> (#[trigger] in_flight@[m]).0@ != key@,
        decreases in_flight@.len() - k,
    {
        if str_eq(in_flight[k].0.as_str(), key) {
            proof {
                match first_download_of(in_flight@, key@) {
                    Some(i) => {
                        if i < k {
                            assert(in_flight@[i].0@ != key@);
                        }
                        if i > k {
                            assert(in_flight@[k as int].0@ != key@);
                        }
                    },
                    None => {
                        assert(in_flight@[k as int].0@ != key@);
                    },
                }
            }
            return Some(k);
        }
        k = k + 1;
    }
    proof {
        if let Some(i) = first_download_of(in_flight@, key@) {
            assert(in_flight@[i].0@ != key@);
        }
    }
    None
}

/// Whether `request_id` is that of the running download of `key`.
pub open spec fn reports_running_download(in_flight: Seq<(String, u64)>, key: Seq<char>, request_id: u64) -> bool {
    match first_download_of(in_flight, key) {
        Some(i) => in_flight[i].1 == request_id,
        None => false,
    }
}

/// Handles the report that the download of `key` with `request_id` ended.
/// A report that is not about the key's running download (its first entry
/// in `in_flight`) changes nothing and gives `false`. Otherwise that entry
/// leaves `in_flight`, and the key's failure is forgotten on success or
/// remembered at `now` on failure.
pub fn finish_download(
    in_flight: &mut Vec<(String, u64)>,
    key: String,
    request_id: u64,
    success: bool,
    failures: &mut ArtFailures,
    now: u64,
) -> (r: bool)
    ensures
        r == reports_running_download(old(in_flight)@, key@, request_id),
        !r ==> final(in_flight)@ == old(in_flight)@ && final(failures)@ == old(failures)@,
        r ==> final(in_flight)@ == old(in_flight)@.remove(first_download_of(old(in_flight)@, key@)->0),
        r && success ==> failure_forgotten(old(failures)@, final(failures)@, key@),
        r && !success ==> failure_remembered(old(failures)@, final(failures)@, key@, now),
{
    let k = match first_download_index(in_flight, key.as_str()) {
        Some(k) => k,
        None => {
            return false;
        },
    };
    if in_flight[k].1 != request_id {
        return false;
    }
    let _gone = in_flight.remove(k);
    if success {
        failures.forget(key.as_str());
    } else {
        failures.remember_failure(key, now);
    }
    true
}

/// Whether cached file `a` is older than `b`: earlier modified, or equally
/// old and listed first.
pub open spec fn older_file(modified: Seq<u64>, a: int, b: int) -> bool {
    modified[a] < modified[b] || (modified[a] == modified[b] && a < b)
}

/// The order in which cached files are evicted: the indices of `modified`
/// from the oldest file to the newest, equally old files in their listed
/// order.
pub fn oldest_first(modified: &[u64]) -> (order: Vec<usize>)
    ensures
        order@.len() == modified@.len(),
        forall|i: int| 0 <= i < order@.len() ==> order@[i] < modified@.len(),
        forall|i: int, j: int|
            0 <= i < j < order@.len() ==> older_file(modified@, #[trigger] order@[i] as int, #[trigger] order@[j] as int),
{
    let mut order: Vec<usize> = Vec::new();
    let mut n: usize = 0;
    while n < modified.len()
        invariant
            0 <= n <= modified@.len(),
            order@.len() == n,
            forall|i: int| 0 <= i < order@.len() ==> order@[i] < n,
            forall|i: int, j: int|
                0 <= i < j < order@.len() ==> older_file(modified@, #[trigger] order@[i] as int, #[trigger] order@[j] as int),
        decreases modified@.len() - n,
    {
        let mut p: usize = 0;
        while p < order.len() && modified[order[p]] <= modified[n]
            invariant
                0 <= p <= order@.len(),
                n < modified@.len(),
                forall|i: int| 0 <= i < order@.len() ==> order@[i] < n,
                forall|m: int| 0 <= m < p ==> modified@[(#[trigger] order@[m]) as int] <= modified@[n as int],
            decreases order@.len() - p,
        {
            p = p + 1;
        }
        let ghost before = order@;
        order.insert(p, n);
        proof {
            assert forall|i: int, j: int| 0 <= i < j < order@.len() implies older_file(
                modified@,
                #[trigger] order@[i] as int,
                #[trigger] order@[j] as int,
            ) by {
                if j < p {
                    assert(order@[i] == before[i] && order@[j] == before[j]);
                } else if j == p {
                    assert(order@[i] == before[i]);
                } else if i == p {
                    assert(order@[j] == before[j - 1]);
                    if j - 1 > p {
                        assert(older_file(modified@, before[p as int] as int, before[j - 1] as int));
                    }
                } else if i < p {
                    assert(order@[i] == before[i] && order@[j] == before[j - 1]);
                } else {
                    assert(order@[i] == before[i - 1] && order@[j] == before[j - 1]);
                }
            }
        }
        n = n + 1;
    }
    order
}

/// Whether a download of `key` is running.
fn key_in_flight(in_flight: &[(String, u64)], key: &str) -> (r: bool)
    ensures
        r <==> exists|k: int| 0 <= k < in_flight@.len() && (#[trigger] in_flight@[k]).0@ == key@,
{
    let mut k: usize = 0;
    while k < in_flight.len()
        invariant
            0 <= k <= in_flight@.len(),
            forall|m: int| 0 <= m < k ==> (#[trigger] in_flight@[m]).0@ != key@,
        decreases in_flight@.len() - k,
    {
        if str_eq(in_flight[k].0.as_str(), key) {
            return true;
        }
        k = k + 1;
    }
    false
}

/// What to do to show artwork `raw`.
#[derive(Debug, Clone, Copy, PartialEq, Eq, Structural)]
pub enum ArtResolve {
    /// Empty, or a local path: used as it is.
    Passthrough,
    /// Neither a data image nor an `https` URL: shown as no artwork.
    Uncacheable,
    /// Already cached: serve the cached file.
    Cached,
    /// A data image not waiting out a failure: decode it into the cache now.
    MaterializeData,
    /// Nothing to start now (remote fetching not wanted, already
    /// downloading, or waiting out a recent failure): no artwork yet.
    NoArtworkYet,
    /// Start a download, first cancelling the oldest one when the download
    /// slots are full.
    Download { cancel_oldest: bool },
}

/// The decision for artwork `raw`, whose cache key is `key`; `cached` tells
/// whether the key's file is present, `in_flight` lists running downloads
/// by key and request id, and `fetch_remote` whether remote artwork may be
/// fetched. Serving a cached file forgets the key's failure; the retry
/// check forgets an expired one.
pub fn resolve_art(
    raw: &str,
    key: &str,
    cached: bool,
    fetch_remote: bool,
    in_flight: &[(String, u64)],
    failures: &mut ArtFailures,
    now: u64,
) -> (r: ArtResolve)
    ensures
        (raw@.len() == 0 || raw@[0] == '/') ==> r == ArtResolve::Passthrough && final(failures)@ == old(failures)@,
        !(raw@.len() == 0 || raw@[0] == '/') && !(starts_with_ignore_case(vstd::utf8::encode_utf8(raw@), data_image_scheme())
            || parsed_url_scheme(raw@) == Some("https"@)) ==> r == ArtResolve::Uncacheable && final(failures)@ == old(failures)@,
        r == ArtResolve::Cached ==> cached && failure_of(final(failures)@, key@) is None,
        r == ArtResolve::MaterializeData ==> !cached && failure_of(final(failures)@, key@) is None
            && starts_with_ignore_case(vstd::utf8::encode_utf8(raw@), data_image_scheme()),
        !cached && !(raw@.len() == 0 || raw@[0] == '/') && starts_with_ignore_case(vstd::utf8::encode_utf8(raw@), data_image_scheme())
            ==> (r == ArtResolve::MaterializeData <==> match failure_of(old(failures)@, key@) {
                None => true,
                Some(at) => at <= now,
            }),
        r matches ArtResolve::Download { cancel_oldest } ==> {
            &&& fetch_remote && !cached
            &&& !starts_with_ignore_case(vstd::utf8::encode_utf8(raw@), data_image_scheme())
            &&& forall|k: int| 0 <= k < in_flight@.len() ==> (#[trigger] in_flight@[k]).0@ != key@
            &&& failure_of(final(failures)@, key@) is None
            &&& cancel_oldest == (in_flight@.len() >= MAX_ART_DOWNLOADS)
        },
        cached && !(raw@.len() == 0 || raw@[0] == '/') && (starts_with_ignore_case(vstd::utf8::encode_utf8(raw@), data_image_scheme())
            || parsed_url_scheme(raw@) == Some("https"@)) ==> r == ArtResolve::Cached,
        forall|other: Seq<char>| other != key@ ==> #[trigger] failure_of(final(failures)@, other) == failure_of(
            old(failures)@,
            other,
        ),
{
    let chars = chars_of(raw);
    if chars.len() == 0 || chars[0] == '/' {
        return ArtResolve::Passthrough;
    }
    if !is_cacheable_art_uri(raw) {
        return ArtResolve::Uncacheable;
    }
    if cached {
        failures.forget(key);
        return ArtResolve::Cached;
    }
    if is_data_image_uri(raw) {
        if !failures.retry_ready(key, now) {
            return ArtResolve::NoArtworkYet;
        }
        return ArtResolve::MaterializeData;
    }
    if !fetch_remote {
        return ArtResolve::NoArtworkYet;
    }
    if key_in_flight(in_flight, key) {
        return ArtResolve::NoArtworkYet;
    }
    if !failures.retry_ready(key, now) {
        return ArtResolve::NoArtworkYet;
    }
    ArtResolve::Download { cancel_oldest: in_flight.len() >= MAX_ART_DOWNLOADS }
}

} // verus!
