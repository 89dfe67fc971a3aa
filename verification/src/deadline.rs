//! Deadlines the router arms, one per key: scheduling a key again replaces
//! its deadline, cancelling drops it, and a deadline fires once, with the
//! token it was last scheduled with. Times are monotonic instants in
//! whatever unit the caller keeps them.

use vstd::prelude::*;
use crate::text::{owned, str_eq};

verus! {

broadcast use vstd::seq_lib::group_filter_ensures;

/// What a deadline is for.
#[derive(Debug, Clone, Copy, PartialEq, Eq, Hash, Structural)]
pub enum DeadlineKind {
    RendererStart,
}

/// A deadline's key: its kind and the renderer it concerns.
#[derive(Debug, Clone, PartialEq, Eq, Hash)]
pub struct DeadlineKey {
    pub owner: String,
    pub kind: DeadlineKind,
}

impl DeadlineKey {
    /// The key of a renderer's start deadline.
    pub fn renderer_start(renderer_id: &str) -> (r: Self)
        ensures
            r.owner@ == renderer_id@,
            r.kind == DeadlineKind::RendererStart,
    {
        DeadlineKey { owner: owned(renderer_id), kind: DeadlineKind::RendererStart }
    }
}

/// Two keys naming the same deadline.
pub open spec fn same_key(a: DeadlineKey, b: DeadlineKey) -> bool {
    a.owner@ == b.owner@ && a.kind == b.kind
}

fn key_eq(a: &DeadlineKey, b: &DeadlineKey) -> (r: bool)
    ensures
        r == same_key(*a, *b),
{
    a.kind == b.kind && str_eq(a.owner.as_str(), b.owner.as_str())
}

fn copy_key(k: &DeadlineKey) -> (r: DeadlineKey)
    ensures
        r == *k,
{
    DeadlineKey { owner: k.owner.clone(), kind: k.kind }
}

/// A scheduled deadline.
#[derive(Debug, Clone)]
pub struct ScheduledDeadline {
    pub key: DeadlineKey,
    pub token: u64,
    pub at: u64,
}

/// A deadline that has come, with the token it was scheduled with.
#[derive(Debug, Clone, PartialEq, Eq)]
pub struct DeadlineReached {
    pub key: DeadlineKey,
    pub token: u64,
}

/// No key scheduled twice.
pub open spec fn keys_unique(s: Seq<ScheduledDeadline>) -> bool {
    forall|i: int, j: int| 0 <= i < j < s.len() ==> !same_key(s[i].key, s[j].key)
}

/// The deadline scheduled under `key`, if any.
pub open spec fn scheduled_under(s: Seq<ScheduledDeadline>, key: DeadlineKey) -> Option<(u64, u64)>
    decreases s.len(),
{
    if s.len() == 0 {
        None
    } else if same_key(s.last().key, key) {
        Some((s.last().token, s.last().at))
    } else {
        scheduled_under(s.drop_last(), key)
    }
}

pub open spec fn not_under(key: DeadlineKey) -> spec_fn(ScheduledDeadline) -> bool {
    |d: ScheduledDeadline| !same_key(d.key, key)
}

pub open spec fn due_at(now: u64) -> spec_fn(ScheduledDeadline) -> bool {
    |d: ScheduledDeadline| d.at <= now
}

pub open spec fn pending_after(now: u64) -> spec_fn(ScheduledDeadline) -> bool {
    |d: ScheduledDeadline| d.at > now
}

/// The deadlines, one per key, in the order they were first scheduled.
pub struct DeadlineTable {
    entries: Vec<ScheduledDeadline>,
}

impl View for DeadlineTable {
    type V = Seq<ScheduledDeadline>;

    closed spec fn view(&self) -> Seq<ScheduledDeadline> {
        self.entries@
    }
}

/// Replacing the entry under `key` at `i` keeps the keys unique and moves
/// only that key's deadline.
proof fn lemma_lookup_update(s: Seq<ScheduledDeadline>, i: int, d: ScheduledDeadline, key: DeadlineKey)
    requires
        keys_unique(s),
        0 <= i < s.len(),
        same_key(s[i].key, d.key),
    ensures
        scheduled_under(s.update(i, d), key) == if same_key(d.key, key) {
            Some((d.token, d.at))
        } else {
            scheduled_under(s, key)
        },
    decreases s.len(),
{
    let t = s.update(i, d);
    if i < s.len() - 1 {
        assert(t.drop_last() =~= s.drop_last().update(i, d));
        lemma_lookup_update(s.drop_last(), i, d, key);
        if same_key(s.last().key, key) && same_key(d.key, key) {
            assert(same_key(s[i].key, s.last().key));
        }
    } else {
        assert(t.drop_last() =~= s.drop_last());
        if !same_key(d.key, key) && same_key(s.last().key, key) {
            assert(same_key(d.key, s.last().key));
        }
        if !same_key(d.key, key) {
            lemma_lookup_absent_tail(s, key);
        }
    }
}

/// With unique keys, the last entry's key is found nowhere before it.
proof fn lemma_lookup_absent_tail(s: Seq<ScheduledDeadline>, key: DeadlineKey)
    requires
        keys_unique(s),
        s.len() > 0,
        !same_key(s.last().key, key),
    ensures
        scheduled_under(s, key) == scheduled_under(s.drop_last(), key),
{
}

/// A key no entry has is not scheduled.
proof fn lemma_lookup_none(s: Seq<ScheduledDeadline>, key: DeadlineKey)
    requires
        forall|i: int| 0 <= i < s.len() ==> !same_key(#[trigger] s[i].key, key),
    ensures
        scheduled_under(s, key) is None,
    decreases s.len(),
{
    if s.len() > 0 {
        lemma_lookup_none(s.drop_last(), key);
    }
}

/// Filtering keeps keys unique and the deadline of every key it keeps.
proof fn lemma_lookup_filter(s: Seq<ScheduledDeadline>, p: spec_fn(ScheduledDeadline) -> bool, key: DeadlineKey)
    requires
        keys_unique(s),
    ensures
        keys_unique(s.filter(p)),
        scheduled_under(s.filter(p), key) == match scheduled_under(s, key) {
            Some((t, a)) => if p(ScheduledDeadline { key: key_of(s, key), token: t, at: a }) {
                Some((t, a))
            } else {
                None
            },
            None => None,
        },
    decreases s.len(),
{
    reveal(Seq::filter);
    if s.len() > 0 {
        let rest = s.drop_last();
        lemma_lookup_filter(rest, p, key);
        let f = s.filter(p);
        let g = rest.filter(p);
        if p(s.last()) {
            assert(f.drop_last() =~= g);
            assert(f.last() == s.last());
        } else {
            assert(f == g);
        }
        assert forall|i: int, j: int| 0 <= i < j < f.len() implies !same_key(f[i].key, f[j].key) by {
            if p(s.last()) && j == f.len() - 1 {
                assert(f[j] == s.last());
                assert(g.contains(g[i]));
                rest.lemma_filter_contains_rev(p, g[i]);
                let k = choose|k: int| 0 <= k < rest.len() && rest[k] == g[i];
                assert(!same_key(s[k].key, s[s.len() - 1].key));
            } else {
                assert(f[i] == g[i] && f[j] == g[j]);
            }
        }
        if same_key(s.last().key, key) {
            assert(s.last() == (ScheduledDeadline { key: key_of(s, key), token: s.last().token, at: s.last().at }));
            if !p(s.last()) {
                assert forall|i: int| 0 <= i < g.len() implies !same_key(#[trigger] g[i].key, key) by {
                    assert(g.contains(g[i]));
                    rest.lemma_filter_contains_rev(p, g[i]);
                    let k = choose|k: int| 0 <= k < rest.len() && rest[k] == g[i];
                    assert(!same_key(s[k].key, s[s.len() - 1].key));
                }
                lemma_lookup_none(g, key);
            }
        } else {
            assert(key_of(s, key) == key_of(rest, key));
        }
    }
}

/// The key as stored in the entry scheduled under `key`.
pub open spec fn key_of(s: Seq<ScheduledDeadline>, key: DeadlineKey) -> DeadlineKey
    decreases s.len(),
{
    if s.len() == 0 {
        key
    } else if same_key(s.last().key, key) {
        s.last().key
    } else {
        key_of(s.drop_last(), key)
    }
}

impl DeadlineTable {
    #[verifier::type_invariant]
    spec fn well_formed(self) -> bool {
        keys_unique(self.entries@)
    }

    /// No deadline scheduled.
    pub fn new() -> (r: Self)
        ensures
            r@ == Seq::<ScheduledDeadline>::empty(),
    {
        DeadlineTable { entries: Vec::new() }
    }

    /// Schedules `key` to fire at `at` with `token`, replacing the deadline
    /// it had.
    pub fn schedule(&mut self, key: DeadlineKey, token: u64, at: u64)
        ensures
            scheduled_under(final(self)@, key) == Some((token, at)),
            forall|other: DeadlineKey| !same_key(other, key) ==> #[trigger] scheduled_under(final(self)@, other)
                == scheduled_under(old(self)@, other),
    {
        proof {
            use_type_invariant(&*self);
        }
        let ghost before = self@;
        let mut i: usize = 0;
        while i < self.entries.len()
            invariant
                0 <= i <= self@.len(),
                self@ == before,
                before == old(self)@,
                keys_unique(before),
                forall|k: int| 0 <= k < i ==> !same_key(#[trigger] before[k].key, key),
            decreases self@.len() - i,
        {
            if key_eq(&self.entries[i].key, &key) {
                let mut entries: Vec<ScheduledDeadline> = Vec::new();
                std::mem::swap(&mut entries, &mut self.entries);
                let d = ScheduledDeadline { key, token, at };
                let ghost dv = d;
                entries[i] = d;
                proof {
                    assert(entries@ == before.update(i as int, dv));
                    assert forall|a: int, b: int| 0 <= a < b < entries@.len() implies !same_key(
                        entries@[a].key,
                        entries@[b].key,
                    ) by {
                        if a == i as int {
                            assert(!same_key(before[a].key, before[b].key));
                        } else if b == i as int {
                            assert(!same_key(before[a].key, before[b].key));
                        }
                    }
                    assert forall|other: DeadlineKey| !same_key(other, dv.key) implies #[trigger] scheduled_under(
                        entries@,
                        other,
                    ) == scheduled_under(before, other) by {
                        lemma_lookup_update(before, i as int, dv, other);
                    }
                    lemma_lookup_update(before, i as int, dv, dv.key);
                }
                self.entries = entries;
                return;
            }
            i = i + 1;
        }
        let ghost kv = key;
        let mut entries: Vec<ScheduledDeadline> = Vec::new();
        std::mem::swap(&mut entries, &mut self.entries);
        entries.push(ScheduledDeadline { key, token, at });
        proof {
            assert(entries@.drop_last() =~= before);
            assert forall|a: int, b: int| 0 <= a < b < entries@.len() implies !same_key(
                entries@[a].key,
                entries@[b].key,
            ) by {
                if b == before.len() {
                    assert(!same_key(before[a].key, kv));
                }
            }
        }
        self.entries = entries;
    }

    /// Drops the deadline of `key`, if any.
    pub fn cancel(&mut self, key: &DeadlineKey)
        ensures
            scheduled_under(final(self)@, *key) is None,
            forall|other: DeadlineKey| !same_key(other, *key) ==> #[trigger] scheduled_under(final(self)@, other)
                == scheduled_under(old(self)@, other),
    {
        proof {
            use_type_invariant(&*self);
        }
        let ghost before = self@;
        let ghost p = not_under(*key);
        let mut entries: Vec<ScheduledDeadline> = Vec::new();
        std::mem::swap(&mut entries, &mut self.entries);
        let mut kept: Vec<ScheduledDeadline> = Vec::new();
        let mut i: usize = 0;
        proof {
            assert(before.take(0) =~= Seq::<ScheduledDeadline>::empty());
            reveal(Seq::filter);
        }
        while i < entries.len()
            invariant
                0 <= i <= entries@.len(),
                entries@ == before,
                p == not_under(*key),
                kept@ == before.take(i as int).filter(p),
            decreases entries@.len() - i,
        {
            proof {
                assert(before.take(i + 1) =~= before.take(i as int).push(before[i as int]));
                before.take(i as int).lemma_filter_push(before[i as int], p);
            }
            if !key_eq(&entries[i].key, key) {
                let d = ScheduledDeadline { key: copy_key(&entries[i].key), token: entries[i].token, at: entries[i].at };
                assert(d == before[i as int]);
                kept.push(d);
            }
            i = i + 1;
        }
        proof {
            assert(before.take(before.len() as int) =~= before);
            lemma_lookup_filter(before, p, *key);
            assert forall|other: DeadlineKey| !same_key(other, *key) implies #[trigger] scheduled_under(
                kept@,
                other,
            ) == scheduled_under(before, other) by {
                lemma_lookup_filter(before, p, other);
                lemma_key_of(before, other);
            }
            lemma_key_of(before, *key);
        }
        self.entries = kept;
    }

    /// The earliest deadline scheduled, if any.
    pub fn next_deadline(&self) -> (r: Option<u64>)
        ensures
            r is None <==> self@.len() == 0,
            r matches Some(at) ==> (exists|i: int| 0 <= i < self@.len() && #[trigger] self@[i].at == at) && forall|
                i: int,
            |
                0 <= i < self@.len() ==> at <= #[trigger] self@[i].at,
    {
        let mut best: Option<u64> = None;
        let mut i: usize = 0;
        while i < self.entries.len()
            invariant
                0 <= i <= self@.len(),
                best is None <==> i == 0,
                best matches Some(b) ==> (exists|k: int| 0 <= k < i && #[trigger] self@[k].at == b) && forall|
                    k: int,
                |
                    0 <= k < i ==> b <= #[trigger] self@[k].at,
            decreases self@.len() - i,
        {
            let at = self.entries[i].at;
            best = match best {
                Some(b) => if at < b { Some(at) } else { Some(b) },
                None => Some(at),
            };
            i = i + 1;
        }
        best
    }

    /// Removes and returns every deadline due by `now`, in table order.
    pub fn take_due(&mut self, now: u64) -> (r: Vec<DeadlineReached>)
        ensures
            final(self)@ == old(self)@.filter(pending_after(now)),
            r@.len() == old(self)@.filter(due_at(now)).len(),
            forall|k: int| 0 <= k < r@.len() ==> (#[trigger] r@[k]).key == old(self)@.filter(due_at(now))[k].key
                && r@[k].token == old(self)@.filter(due_at(now))[k].token,
    {
        proof {
            use_type_invariant(&*self);
        }
        let ghost before = self@;
        let mut entries: Vec<ScheduledDeadline> = Vec::new();
        std::mem::swap(&mut entries, &mut self.entries);
        let mut kept: Vec<ScheduledDeadline> = Vec::new();
        let mut due: Vec<DeadlineReached> = Vec::new();
        let mut i: usize = 0;
        proof {
            assert(before.take(0) =~= Seq::<ScheduledDeadline>::empty());
            reveal(Seq::filter);
        }
        while i < entries.len()
            invariant
                0 <= i <= entries@.len(),
                entries@ == before,
                kept@ == before.take(i as int).filter(pending_after(now)),
                due@.len() == before.take(i as int).filter(due_at(now)).len(),
                forall|k: int| 0 <= k < due@.len() ==> (#[trigger] due@[k]).key == before.take(i as int).filter(
                    due_at(now),
                )[k].key && due@[k].token == before.take(i as int).filter(due_at(now))[k].token,
            decreases entries@.len() - i,
        {
            proof {
                assert(before.take(i + 1) =~= before.take(i as int).push(before[i as int]));
                before.take(i as int).lemma_filter_push(before[i as int], pending_after(now));
                before.take(i as int).lemma_filter_push(before[i as int], due_at(now));
            }
            let e = &entries[i];
            if e.at <= now {
                due.push(DeadlineReached { key: copy_key(&e.key), token: e.token });
            } else {
                let d = ScheduledDeadline { key: copy_key(&e.key), token: e.token, at: e.at };
                assert(d == before[i as int]);
                kept.push(d);
            }
            i = i + 1;
        }
        proof {
            assert(before.take(before.len() as int) =~= before);
            lemma_lookup_filter(before, pending_after(now), vstd::pervasive::arbitrary());
        }
        self.entries = kept;
        due
    }
}

/// A key with an entry is scheduled.
proof fn lemma_lookup_some(s: Seq<ScheduledDeadline>, i: int, key: DeadlineKey)
    requires
        0 <= i < s.len(),
        same_key(s[i].key, key),
    ensures
        scheduled_under(s, key) is Some,
    decreases s.len(),
{
    if !same_key(s.last().key, key) {
        lemma_lookup_some(s.drop_last(), i, key);
    }
}

/// A cancelled (or never scheduled) key does not fire: no deadline taken
/// as due carries it.
pub proof fn law_unscheduled_key_never_fires(s: Seq<ScheduledDeadline>, key: DeadlineKey, now: u64)
    requires
        scheduled_under(s, key) is None,
    ensures
        forall|k: int| 0 <= k < s.filter(due_at(now)).len() ==> !same_key(#[trigger] s.filter(due_at(now))[k].key, key),
{
    assert forall|k: int| 0 <= k < s.filter(due_at(now)).len() implies !same_key(#[trigger] s.filter(due_at(now))[k].key, key) by {
        let f = s.filter(due_at(now));
        assert(f.contains(f[k]));
        s.lemma_filter_contains_rev(due_at(now), f[k]);
        let j = choose|j: int| 0 <= j < s.len() && s[j] == f[k];
        if same_key(f[k].key, key) {
            lemma_lookup_some(s, j, key);
        }
    }
}

/// The stored key of a scheduled deadline names the same deadline.
proof fn lemma_key_of(s: Seq<ScheduledDeadline>, key: DeadlineKey)
    ensures
        same_key(key_of(s, key), key),
    decreases s.len(),
{
    if s.len() > 0 && !same_key(s.last().key, key) {
        lemma_key_of(s.drop_last(), key);
    }
}

} // verus!
