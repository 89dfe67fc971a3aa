//! Renderer event subscriptions: which renderers asked for which event
//! kinds, at which revision, and when each membership last changed.
//!
//! A renderer sends its complete set of event kinds with a revision. The
//! registry checks the request against the committed entry (`prepare`), and
//! the caller commits an applied change once it has been acknowledged
//! (`commit`). Snapshots answer the event publishers' queries.

use vstd::prelude::*;
use std::collections::BTreeSet;
use crate::text::{byte_length, byte_length_of, debug_escaped, debug_quote, chars_of, chars_order, compare_chars, decimal, lemma_chars_order, owned,
    push_decimal, push_str, str_eq};

verus! {

broadcast use {vstd::std_specs::btree::group_btree_axioms, vstd::laws_cmp::group_laws_cmp};

/// Events a renderer may subscribe to, in their canonical order.
#[derive(Debug, Clone, Copy, PartialEq, Eq, Structural, PartialOrd, Ord, Hash)]
pub enum RendererEventKind {
    Pointer,
    Mpris,
    Audio,
}

impl RendererEventKind {
    /// The wire name of the kind.
    pub open spec fn name(self) -> Seq<char> {
        match self {
            RendererEventKind::Pointer => "pointer"@,
            RendererEventKind::Mpris => "mpris"@,
            RendererEventKind::Audio => "audio"@,
        }
    }

    pub fn as_str(self) -> (r: &'static str)
        ensures
            r@ == self.name(),
    {
        match self {
            RendererEventKind::Pointer => "pointer",
            RendererEventKind::Mpris => "mpris",
            RendererEventKind::Audio => "audio",
        }
    }

    /// The kind with the given wire name.
    pub open spec fn spec_parse(value: Seq<char>) -> Option<RendererEventKind> {
        if value == "pointer"@ {
            Some(RendererEventKind::Pointer)
        } else if value == "mpris"@ {
            Some(RendererEventKind::Mpris)
        } else if value == "audio"@ {
            Some(RendererEventKind::Audio)
        } else {
            None
        }
    }

    pub fn parse(value: &str) -> (r: Option<Self>)
        ensures
            r == Self::spec_parse(value@),
    {
        if str_eq(value, "pointer") {
            Some(RendererEventKind::Pointer)
        } else if str_eq(value, "mpris") {
            Some(RendererEventKind::Mpris)
        } else if str_eq(value, "audio") {
            Some(RendererEventKind::Audio)
        } else {
            None
        }
    }
}

/// The name of each kind maps back to it.
pub proof fn law_event_kind_names_round_trip(kind: RendererEventKind)
    ensures
        RendererEventKind::spec_parse(kind.name()) == Some(kind),
{
    reveal_strlit("pointer");
    reveal_strlit("mpris");
    reveal_strlit("audio");
    assert("mpris"@[0] != "pointer"@[0]);
    assert("audio"@[0] != "pointer"@[0]);
    assert("audio"@[0] != "mpris"@[0]);
}

/// A set of event kinds.
#[derive(Debug, Clone, Copy, PartialEq, Eq, Structural)]
pub struct EventKinds {
    pub pointer: bool,
    pub mpris: bool,
    pub audio: bool,
}

impl EventKinds {
    pub fn empty() -> (r: Self)
        ensures
            !r.pointer && !r.mpris && !r.audio,
    {
        EventKinds { pointer: false, mpris: false, audio: false }
    }

    pub open spec fn has(self, kind: RendererEventKind) -> bool {
        match kind {
            RendererEventKind::Pointer => self.pointer,
            RendererEventKind::Mpris => self.mpris,
            RendererEventKind::Audio => self.audio,
        }
    }

    pub open spec fn with(self, kind: RendererEventKind) -> EventKinds {
        match kind {
            RendererEventKind::Pointer => EventKinds { pointer: true, ..self },
            RendererEventKind::Mpris => EventKinds { mpris: true, ..self },
            RendererEventKind::Audio => EventKinds { audio: true, ..self },
        }
    }

    pub fn contains(&self, kind: RendererEventKind) -> (r: bool)
        ensures
            r == self.has(kind),
    {
        match kind {
            RendererEventKind::Pointer => self.pointer,
            RendererEventKind::Mpris => self.mpris,
            RendererEventKind::Audio => self.audio,
        }
    }

    pub fn insert(&mut self, kind: RendererEventKind)
        ensures
            *final(self) == old(self).with(kind),
    {
        match kind {
            RendererEventKind::Pointer => self.pointer = true,
            RendererEventKind::Mpris => self.mpris = true,
            RendererEventKind::Audio => self.audio = true,
        }
    }

    /// Wire names of the members in canonical order.
    pub open spec fn spec_names(self) -> Seq<Seq<char>> {
        let a = if self.pointer {
            seq!["pointer"@]
        } else {
            Seq::empty()
        };
        let b = if self.mpris {
            seq!["mpris"@]
        } else {
            Seq::empty()
        };
        let c = if self.audio {
            seq!["audio"@]
        } else {
            Seq::empty()
        };
        a + b + c
    }

    pub fn names(&self) -> (r: Vec<String>)
        ensures
            strings_view(r@) == self.spec_names(),
    {
        let mut out: Vec<String> = Vec::new();
        if self.pointer {
            out.push(owned("pointer"));
        }
        if self.mpris {
            out.push(owned("mpris"));
        }
        if self.audio {
            out.push(owned("audio"));
        }
        assert(strings_view(out@) =~= self.spec_names());
        out
    }
}

/// The character sequences of a list of strings.
pub open spec fn strings_view(v: Seq<String>) -> Seq<Seq<char>> {
    v.map_values(|s: String| s@)
}

/// A renderer's complete subscription set at a revision.
#[derive(Debug, Clone, Copy, PartialEq, Eq, Structural)]
pub struct RendererSubscription {
    pub revision: u64,
    pub kinds: EventKinds,
}

impl Default for RendererSubscription {
    fn default() -> (r: Self)
        ensures
            r.revision == 0 && r.kinds == (EventKinds { pointer: false, mpris: false, audio: false }),
    {
        RendererSubscription { revision: 0, kinds: EventKinds::empty() }
    }
}

/// For each kind, the generation of its latest membership change.
#[derive(Debug, Clone, Copy, PartialEq, Eq, Structural)]
pub struct MembershipGenerations {
    pub pointer: Option<u64>,
    pub mpris: Option<u64>,
    pub audio: Option<u64>,
}

impl MembershipGenerations {
    pub open spec fn spec_get(self, kind: RendererEventKind) -> Option<u64> {
        match kind {
            RendererEventKind::Pointer => self.pointer,
            RendererEventKind::Mpris => self.mpris,
            RendererEventKind::Audio => self.audio,
        }
    }

    pub fn get(&self, kind: RendererEventKind) -> (r: Option<u64>)
        ensures
            r == self.spec_get(kind),
    {
        match kind {
            RendererEventKind::Pointer => self.pointer,
            RendererEventKind::Mpris => self.mpris,
            RendererEventKind::Audio => self.audio,
        }
    }
}

/// What the registry keeps per renderer.
#[derive(Debug, Clone, Copy, PartialEq, Eq, Structural)]
pub struct RendererSubscriptionEntry {
    pub subscription: RendererSubscription,
    pub membership_generations: MembershipGenerations,
}

/// The entry of a freshly registered renderer.
pub open spec fn fresh_entry() -> RendererSubscriptionEntry {
    RendererSubscriptionEntry {
        subscription: RendererSubscription {
            revision: 0,
            kinds: EventKinds { pointer: false, mpris: false, audio: false },
        },
        membership_generations: MembershipGenerations { pointer: None, mpris: None, audio: None },
    }
}

fn new_entry() -> (r: RendererSubscriptionEntry)
    ensures
        r == fresh_entry(),
{
    RendererSubscriptionEntry {
        subscription: RendererSubscription { revision: 0, kinds: EventKinds::empty() },
        membership_generations: MembershipGenerations { pointer: None, mpris: None, audio: None },
    }
}

// ---------------------------------------------------------------------------
// Tables keyed by renderer id

/// Renderer ids strictly increase along the table.
pub open spec fn ids_sorted(t: Seq<(String, RendererSubscriptionEntry)>) -> bool {
    forall|i: int, j: int| 0 <= i < j < t.len() ==> chars_order(#[trigger] t[i].0@, #[trigger] t[j].0@) < 0
}

/// The entry of renderer `id`, if the table has one.
pub open spec fn lookup(t: Seq<(String, RendererSubscriptionEntry)>, id: Seq<char>) -> Option<
    RendererSubscriptionEntry,
>
    decreases t.len(),
{
    if t.len() == 0 {
        None
    } else if t.last().0@ == id {
        Some(t.last().1)
    } else {
        lookup(t.drop_last(), id)
    }
}

proof fn lemma_sorted_drop_last(t: Seq<(String, RendererSubscriptionEntry)>)
    requires
        ids_sorted(t),
        t.len() > 0,
    ensures
        ids_sorted(t.drop_last()),
{
    let d = t.drop_last();
    assert forall|i: int, j: int| 0 <= i < j < d.len() implies chars_order(
        #[trigger] d[i].0@,
        #[trigger] d[j].0@,
    ) < 0 by {
        assert(d[i] == t[i] && d[j] == t[j]);
    }
}

proof fn lemma_lookup_at(t: Seq<(String, RendererSubscriptionEntry)>, id: Seq<char>, at: int)
    requires
        ids_sorted(t),
        0 <= at < t.len(),
        t[at].0@ == id,
    ensures
        lookup(t, id) == Some(t[at].1),
    decreases t.len(),
{
    let l = t.len() - 1;
    if at < l {
        assert(chars_order(t[at].0@, t[l].0@) < 0);
        lemma_chars_order(t[at].0@, t[l].0@);
        lemma_sorted_drop_last(t);
        assert(t.drop_last()[at] == t[at]);
        lemma_lookup_at(t.drop_last(), id, at);
    }
}

/// No entry of the table carries `id`.
proof fn lemma_lookup_none(t: Seq<(String, RendererSubscriptionEntry)>, id: Seq<char>)
    requires
        forall|i: int| 0 <= i < t.len() ==> #[trigger] t[i].0@ != id,
    ensures
        lookup(t, id) is None,
    decreases t.len(),
{
    if t.len() > 0 {
        let d = t.drop_last();
        assert forall|i: int| 0 <= i < d.len() implies #[trigger] d[i].0@ != id by {
            assert(d[i] == t[i]);
        }
        assert(t[t.len() - 1].0@ != id);
        lemma_lookup_none(d, id);
    }
}

/// Wire-revision listing of the subscribers of `kind`, in id order.
pub open spec fn wire_list(t: Seq<(String, RendererSubscriptionEntry)>, kind: RendererEventKind) -> Seq<
    (Seq<char>, u64),
>
    decreases t.len(),
{
    if t.len() == 0 {
        Seq::empty()
    } else {
        let rest = wire_list(t.drop_last(), kind);
        let e = t.last().1;
        if e.subscription.kinds.has(kind) {
            rest.push((t.last().0@, e.subscription.revision))
        } else {
            rest
        }
    }
}

/// Membership-generation listing of the subscribers of `kind`, in id order.
pub open spec fn membership_list(
    t: Seq<(String, RendererSubscriptionEntry)>,
    kind: RendererEventKind,
) -> Seq<(Seq<char>, u64)>
    decreases t.len(),
{
    if t.len() == 0 {
        Seq::empty()
    } else {
        let rest = membership_list(t.drop_last(), kind);
        let e = t.last().1;
        if e.subscription.kinds.has(kind) && e.membership_generations.spec_get(kind) is Some {
            rest.push((t.last().0@, e.membership_generations.spec_get(kind)->0))
        } else {
            rest
        }
    }
}

pub open spec fn pairs_view(v: Seq<(String, u64)>) -> Seq<(Seq<char>, u64)> {
    v.map_values(|p: (String, u64)| (p.0@, p.1))
}

/// Subscriber ids strictly increase along the list.
pub open spec fn pairs_ordered(v: Seq<(Seq<char>, u64)>) -> bool {
    forall|i: int, j: int| 0 <= i < j < v.len() ==> chars_order(#[trigger] v[i].0, #[trigger] v[j].0) < 0
}

proof fn lemma_wire_list_ordered(t: Seq<(String, RendererSubscriptionEntry)>, kind: RendererEventKind)
    requires
        ids_sorted(t),
    ensures
        pairs_ordered(wire_list(t, kind)),
        pairs_ordered(membership_list(t, kind)),
        forall|k: int| 0 <= k < wire_list(t, kind).len() ==> exists|j: int|
            0 <= j < t.len() && #[trigger] wire_list(t, kind)[k].0 == t[j].0@,
        forall|k: int| 0 <= k < membership_list(t, kind).len() ==> exists|j: int|
            0 <= j < t.len() && #[trigger] membership_list(t, kind)[k].0 == t[j].0@,
    decreases t.len(),
{
    if t.len() > 0 {
        let d = t.drop_last();
        assert forall|i: int, j: int| 0 <= i < j < d.len() implies chars_order(#[trigger] d[i].0@, #[trigger] d[j].0@) < 0 by {
            assert(d[i] == t[i] && d[j] == t[j]);
        }
        lemma_wire_list_ordered(d, kind);
        let last = t.len() - 1;
        let w = wire_list(d, kind);
        let m = membership_list(d, kind);
        assert forall|k: int| 0 <= k < w.len() implies chars_order(#[trigger] w[k].0, t[last].0@) < 0 by {
            let j = choose|j: int| 0 <= j < d.len() && #[trigger] w[k].0 == d[j].0@;
            assert(d[j] == t[j]);
        }
        assert forall|k: int| 0 <= k < m.len() implies chars_order(#[trigger] m[k].0, t[last].0@) < 0 by {
            let j = choose|j: int| 0 <= j < d.len() && #[trigger] m[k].0 == d[j].0@;
            assert(d[j] == t[j]);
        }
        assert forall|k: int| 0 <= k < w.len() implies exists|j: int| 0 <= j < t.len() && #[trigger] w[k].0 == t[j].0@ by {
            let j = choose|j: int| 0 <= j < d.len() && #[trigger] w[k].0 == d[j].0@;
            assert(d[j] == t[j]);
        }
        assert forall|k: int| 0 <= k < m.len() implies exists|j: int| 0 <= j < t.len() && #[trigger] m[k].0 == t[j].0@ by {
            let j = choose|j: int| 0 <= j < d.len() && #[trigger] m[k].0 == d[j].0@;
            assert(d[j] == t[j]);
        }
        assert(t.last() == t[last]);
    }
}

/// Listings of subscribers come in strictly increasing id order, each
/// subscriber once, whenever the table is sorted by id (as every snapshot
/// and registry keeps it).
pub proof fn law_subscriber_lists_ordered(t: Seq<(String, RendererSubscriptionEntry)>, kind: RendererEventKind)
    requires
        ids_sorted(t),
    ensures
        pairs_ordered(wire_list(t, kind)),
        pairs_ordered(membership_list(t, kind)),
{
    lemma_wire_list_ordered(t, kind);
}

/// A subscriber is listed with a revision exactly when looking its id up
/// finds an entry subscribed to `kind` with that revision; likewise for
/// membership generations, listed only where one is recorded.
pub proof fn law_subscriber_lists_match_lookup(
    t: Seq<(String, RendererSubscriptionEntry)>,
    kind: RendererEventKind,
    id: Seq<char>,
    value: u64,
)
    requires
        ids_sorted(t),
    ensures
        wire_list(t, kind).contains((id, value)) <==> (lookup(t, id) matches Some(e) && e.subscription.kinds.has(kind)
            && e.subscription.revision == value),
        membership_list(t, kind).contains((id, value)) <==> (lookup(t, id) matches Some(e)
            && e.subscription.kinds.has(kind) && e.membership_generations.spec_get(kind) == Some(value)),
    decreases t.len(),
{
    if t.len() > 0 {
        let d = t.drop_last();
        let l = t.last();
        lemma_sorted_drop_last(t);
        law_subscriber_lists_match_lookup(d, kind, id, value);
        let w = wire_list(d, kind);
        let m = membership_list(d, kind);
        if l.0@ == id {
            assert forall|i: int| 0 <= i < d.len() implies #[trigger] d[i].0@ != id by {
                assert(d[i] == t[i]);
                assert(chars_order(t[i].0@, t[t.len() - 1].0@) < 0);
                lemma_chars_order(t[i].0@, t[t.len() - 1].0@);
            }
            lemma_lookup_none(d, id);
            lemma_wire_list_ordered(d, kind);
            assert(!w.contains((id, value)));
            assert(!m.contains((id, value)));
        }
        let pw = (l.0@, l.1.subscription.revision);
        if l.1.subscription.kinds.has(kind) {
            assert(w.push(pw)[w.len() as int] == pw);
            if w.push(pw).contains((id, value)) {
                let k = choose|k: int| 0 <= k < w.push(pw).len() && w.push(pw)[k] == (id, value);
                if k < w.len() {
                    assert(w[k] == (id, value));
                }
            }
            if w.contains((id, value)) {
                let k = choose|k: int| 0 <= k < w.len() && w[k] == (id, value);
                assert(w.push(pw)[k] == (id, value));
            }
        }
        if l.1.subscription.kinds.has(kind) && l.1.membership_generations.spec_get(kind) is Some {
            let pm = (l.0@, l.1.membership_generations.spec_get(kind)->0);
            assert(m.push(pm)[m.len() as int] == pm);
            if m.push(pm).contains((id, value)) {
                let k = choose|k: int| 0 <= k < m.push(pm).len() && m.push(pm)[k] == (id, value);
                if k < m.len() {
                    assert(m[k] == (id, value));
                }
            }
            if m.contains((id, value)) {
                let k = choose|k: int| 0 <= k < m.len() && m[k] == (id, value);
                assert(m.push(pm)[k] == (id, value));
            }
        }
    }
}

/// Where `id` is, or where it would go.
fn locate(t: &Vec<(String, RendererSubscriptionEntry)>, id: &[char]) -> (r: (bool, usize))
    requires
        ids_sorted(t@),
    ensures
        r.1 <= t@.len(),
        r.0 ==> r.1 < t@.len() && t@[r.1 as int].0@ == id@,
        !r.0 ==> (forall|j: int| 0 <= j < r.1 ==> chars_order(#[trigger] t@[j].0@, id@) < 0)
            && (forall|j: int| r.1 <= j < t@.len() ==> chars_order(#[trigger] t@[j].0@, id@) > 0),
{
    let mut i: usize = 0;
    while i < t.len()
        invariant
            0 <= i <= t@.len(),
            ids_sorted(t@),
            forall|j: int| 0 <= j < i ==> chars_order(#[trigger] t@[j].0@, id@) < 0,
        decreases t@.len() - i,
    {
        let key = chars_of(t[i].0.as_str());
        let c = compare_chars(key.as_slice(), id);
        if c == 0 {
            proof {
                lemma_chars_order(t@[i as int].0@, id@);
            }
            return (true, i);
        }
        if c > 0 {
            assert forall|j: int| i <= j < t@.len() implies chars_order(#[trigger] t@[j].0@, id@) > 0 by {
                if j > i {
                    assert(chars_order(t@[i as int].0@, t@[j].0@) < 0);
                    lemma_chars_order(t@[i as int].0@, t@[j].0@);
                    lemma_chars_order(t@[i as int].0@, id@);
                    crate::text::lemma_chars_order_trans(id@, t@[i as int].0@, t@[j].0@);
                    lemma_chars_order(id@, t@[i as int].0@);
                    lemma_chars_order(id@, t@[j].0@);
                    lemma_chars_order(t@[j].0@, id@);
                    if chars_order(t@[j].0@, id@) == 0 {
                        assert(t@[j].0@ == id@);
                    }
                }
            }
            return (false, i);
        }
        i = i + 1;
    }
    (false, i)
}

fn copy_table(t: &Vec<(String, RendererSubscriptionEntry)>) -> (r: Vec<(String, RendererSubscriptionEntry)>)
    ensures
        r@.len() == t@.len(),
        forall|i: int| #![trigger r@[i]] 0 <= i < t@.len() ==> r@[i].0@ == t@[i].0@ && r@[i].1 == t@[i].1,
{
    let mut out: Vec<(String, RendererSubscriptionEntry)> = Vec::new();
    let mut i: usize = 0;
    while i < t.len()
        invariant
            0 <= i <= t@.len(),
            out@.len() == i,
            forall|j: int| #![trigger out@[j]] 0 <= j < i ==> out@[j].0@ == t@[j].0@ && out@[j].1 == t@[j].1,
        decreases t@.len() - i,
    {
        out.push((t[i].0.clone(), t[i].1));
        i = i + 1;
    }
    out
}

proof fn lemma_same_keys_sorted(a: Seq<(String, RendererSubscriptionEntry)>, b: Seq<(String, RendererSubscriptionEntry)>)
    requires
        ids_sorted(a),
        a.len() == b.len(),
        forall|i: int| #![trigger b[i]] 0 <= i < a.len() ==> b[i].0@ == a[i].0@ && b[i].1 == a[i].1,
    ensures
        ids_sorted(b),
        forall|k: Seq<char>| #[trigger] lookup(b, k) == lookup(a, k),
        forall|kind: RendererEventKind| #[trigger] wire_list(b, kind) == wire_list(a, kind),
        forall|kind: RendererEventKind| #[trigger] membership_list(b, kind) == membership_list(a, kind),
{
    assert forall|i: int, j: int| 0 <= i < j < b.len() implies chars_order(
        #[trigger] b[i].0@,
        #[trigger] b[j].0@,
    ) < 0 by {
        assert(b[i].0@ == a[i].0@ && b[j].0@ == a[j].0@);
    }
    assert forall|k: Seq<char>| #[trigger] lookup(b, k) == lookup(a, k) by {
        if exists|i: int| 0 <= i < a.len() && a[i].0@ == k {
            let i = choose|i: int| 0 <= i < a.len() && a[i].0@ == k;
            lemma_lookup_at(a, k, i);
            lemma_lookup_at(b, k, i);
        } else {
            assert forall|i: int| 0 <= i < b.len() implies b[i].0@ != k by {
                assert(b[i].0@ == a[i].0@);
            }
            lemma_lookup_none(b, k);
            lemma_lookup_none(a, k);
        }
    }
    assert forall|kind: RendererEventKind| #[trigger] wire_list(b, kind) == wire_list(a, kind) by {
        lemma_lists_same(a, b, kind);
    }
    assert forall|kind: RendererEventKind| #[trigger] membership_list(b, kind) == membership_list(
        a,
        kind,
    ) by {
        lemma_lists_same(a, b, kind);
    }
}

proof fn lemma_lists_same(
    a: Seq<(String, RendererSubscriptionEntry)>,
    b: Seq<(String, RendererSubscriptionEntry)>,
    kind: RendererEventKind,
)
    requires
        a.len() == b.len(),
        forall|i: int| #![trigger b[i]] 0 <= i < a.len() ==> b[i].0@ == a[i].0@ && b[i].1 == a[i].1,
    ensures
        wire_list(b, kind) == wire_list(a, kind),
        membership_list(b, kind) == membership_list(a, kind),
    decreases a.len(),
{
    if a.len() > 0 {
        let ad = a.drop_last();
        let bd = b.drop_last();
        assert forall|i: int| #![trigger bd[i]] 0 <= i < ad.len() implies bd[i].0@ == ad[i].0@
            && bd[i].1 == ad[i].1 by {
            assert(bd[i] == b[i] && ad[i] == a[i]);
            assert(b[i].0@ == a[i].0@ && b[i].1 == a[i].1);
        }
        lemma_lists_same(ad, bd, kind);
        let l = a.len() - 1;
        assert(b[l].0@ == a[l].0@ && b[l].1 == a[l].1);
    }
}

// ---------------------------------------------------------------------------
// Snapshots

/// The committed subscriptions as the event publishers see them.
pub struct RendererSubscriptionSnapshot {
    entries: Vec<(String, RendererSubscriptionEntry)>,
}

impl RendererSubscriptionSnapshot {
    #[verifier::type_invariant]
    spec fn sorted(self) -> bool {
        ids_sorted(self.entries@)
    }

    /// The entries, in renderer-id order.
    pub closed spec fn table(self) -> Seq<(String, RendererSubscriptionEntry)> {
        self.entries@
    }

    /// An empty snapshot.
    pub fn empty() -> (r: Self)
        ensures
            r.table().len() == 0,
    {
        RendererSubscriptionSnapshot { entries: Vec::new() }
    }

    /// The committed complete-set wire revision of a current subscriber.
    pub fn wire_revision_for(&self, id: &str, kind: RendererEventKind) -> (r: Option<u64>)
        ensures
            r == match lookup(self.table(), id@) {
                Some(e) => if e.subscription.kinds.has(kind) {
                    Some(e.subscription.revision)
                } else {
                    None
                },
                None => None,
            },
    {
        proof {
            use_type_invariant(self);
        }
        match self.entry(id) {
            Some(e) => if e.subscription.kinds.contains(kind) {
                Some(e.subscription.revision)
            } else {
                None
            },
            None => None,
        }
    }

    /// Current subscribers of `kind` with their wire revisions, in id order.
    pub fn subscribers_with_wire_revision(&self, kind: RendererEventKind) -> (r: Vec<(String, u64)>)
        ensures
            pairs_view(r@) == wire_list(self.table(), kind),
            pairs_ordered(pairs_view(r@)),
    {
        proof {
            use_type_invariant(self);
            lemma_wire_list_ordered(self.entries@, kind);
        }
        let mut out: Vec<(String, u64)> = Vec::new();
        let mut i: usize = 0;
        proof {
            assert(self.entries@.take(0) =~= Seq::<(String, RendererSubscriptionEntry)>::empty());
        }
        while i < self.entries.len()
            invariant
                0 <= i <= self.entries@.len(),
                pairs_view(out@) == wire_list(self.entries@.take(i as int), kind),
            decreases self.entries@.len() - i,
        {
            proof {
                assert(self.entries@.take(i + 1).drop_last() =~= self.entries@.take(i as int));
            }
            let e = self.entries[i].1;
            if e.subscription.kinds.contains(kind) {
                let ghost before = out@;
                out.push((self.entries[i].0.clone(), e.subscription.revision));
                proof {
                    assert(pairs_view(out@) =~= pairs_view(before).push(
                        (self.entries@[i as int].0@, e.subscription.revision),
                    ));
                }
            }
            i = i + 1;
        }
        proof {
            assert(self.entries@.take(self.entries@.len() as int) =~= self.entries@);
        }
        out
    }

    /// The generation of the latest membership change of a current
    /// subscriber for `kind`.
    pub fn membership_generation_for(&self, id: &str, kind: RendererEventKind) -> (r: Option<u64>)
        ensures
            r == match lookup(self.table(), id@) {
                Some(e) => if e.subscription.kinds.has(kind) {
                    e.membership_generations.spec_get(kind)
                } else {
                    None
                },
                None => None,
            },
    {
        proof {
            use_type_invariant(self);
        }
        match self.entry(id) {
            Some(e) => if e.subscription.kinds.contains(kind) {
                e.membership_generations.get(kind)
            } else {
                None
            },
            None => None,
        }
    }

    /// Current subscribers of `kind` with their membership generations, in
    /// id order.
    pub fn subscribers_with_membership_generation(&self, kind: RendererEventKind) -> (r: Vec<
        (String, u64),
    >)
        ensures
            pairs_view(r@) == membership_list(self.table(), kind),
            pairs_ordered(pairs_view(r@)),
    {
        proof {
            use_type_invariant(self);
            lemma_wire_list_ordered(self.entries@, kind);
        }
        let mut out: Vec<(String, u64)> = Vec::new();
        let mut i: usize = 0;
        proof {
            assert(self.entries@.take(0) =~= Seq::<(String, RendererSubscriptionEntry)>::empty());
        }
        while i < self.entries.len()
            invariant
                0 <= i <= self.entries@.len(),
                pairs_view(out@) == membership_list(self.entries@.take(i as int), kind),
            decreases self.entries@.len() - i,
        {
            proof {
                assert(self.entries@.take(i + 1).drop_last() =~= self.entries@.take(i as int));
            }
            let e = self.entries[i].1;
            if e.subscription.kinds.contains(kind) {
                match e.membership_generations.get(kind) {
                    Some(g) => {
                        let ghost before = out@;
                        out.push((self.entries[i].0.clone(), g));
                        proof {
                            assert(pairs_view(out@) =~= pairs_view(before).push(
                                (self.entries@[i as int].0@, g),
                            ));
                        }
                    },
                    None => {},
                }
            }
            i = i + 1;
        }
        proof {
            assert(self.entries@.take(self.entries@.len() as int) =~= self.entries@);
        }
        out
    }

    fn entry(&self, id: &str) -> (r: Option<RendererSubscriptionEntry>)
        requires
            ids_sorted(self.entries@),
        ensures
            r == lookup(self.entries@, id@),
    {
        let key = chars_of(id);
        let (found, pos) = locate(&self.entries, key.as_slice());
        if found {
            proof {
                lemma_lookup_at(self.entries@, id@, pos as int);
            }
            Some(self.entries[pos].1)
        } else {
            proof {
                assert forall|i: int| 0 <= i < self.entries@.len() implies self.entries@[i].0@
                    != id@ by {
                    lemma_chars_order(self.entries@[i].0@, id@);
                }
                lemma_lookup_none(self.entries@, id@);
            }
            None
        }
    }
}

// ---------------------------------------------------------------------------
// Process ownership

/// The process groups of the renderers the daemon runs.
pub struct RendererProcessOwnershipSnapshot {
    pub generation: u64,
    pub process_groups: BTreeSet<i32>,
}

impl RendererProcessOwnershipSnapshot {
    pub open spec fn groups(self) -> Set<i32> {
        self.process_groups@
    }

    /// A snapshot at generation 0 holding the given groups.
    pub fn from_process_groups(process_groups: Vec<i32>) -> (r: Self)
        ensures
            r.generation == 0,
            r.groups() == process_groups@.to_set(),
    {
        let mut set: BTreeSet<i32> = BTreeSet::new();
        let mut i: usize = 0;
        while i < process_groups.len()
            invariant
                0 <= i <= process_groups@.len(),
                set@ == process_groups@.take(i as int).to_set(),
            decreases process_groups@.len() - i,
        {
            set.insert(process_groups[i]);
            proof {
                assert(process_groups@.take(i + 1) =~= process_groups@.take(i as int).push(
                    process_groups@[i as int],
                ));
                process_groups@.take(i as int).lemma_push_to_set_commute(process_groups@[i as int]);
            }
            i = i + 1;
        }
        proof {
            assert(process_groups@.take(process_groups@.len() as int) =~= process_groups@);
        }
        RendererProcessOwnershipSnapshot { generation: 0, process_groups: set }
    }

    /// An empty snapshot.
    pub fn empty() -> (r: Self)
        ensures
            r.generation == 0,
            r.groups() == Set::<i32>::empty(),
    {
        RendererProcessOwnershipSnapshot { generation: 0, process_groups: BTreeSet::new() }
    }

    pub fn owns_process_group(&self, process_group: i32) -> (r: bool)
        ensures
            r == self.groups().contains(process_group),
    {
        self.process_groups.contains(&process_group)
    }
}

// ---------------------------------------------------------------------------
// The registry

/// Outcome of a subscription request.
#[derive(Debug, Clone, Copy, PartialEq, Eq, Structural)]
pub enum EventSubscriptionStatus {
    Applied,
    Invalid,
    LimitExceeded,
    StaleRevision,
    RevisionConflict,
}

/// Bounds on one subscription request.
#[derive(Debug, Clone, Copy, PartialEq, Eq, Structural)]
pub struct SubscriptionLimits {
    /// Most event kinds one request may name.
    pub max_subscriptions: usize,
    /// Longest event kind name, in bytes.
    pub max_kind_bytes: usize,
    /// Longest sum of the names of one request, in bytes.
    pub max_total_bytes: usize,
}

/// The answer to a request, and the subscription to commit once the answer
/// has been delivered.
pub struct SubscriptionApply {
    pub revision: u64,
    pub status: EventSubscriptionStatus,
    pub kinds: Vec<String>,
    pub reason: String,
    pub commit: Option<RendererSubscription>,
}

/// An answer as values: status, kinds, reason, subscription to commit.
pub struct ApplyOutcome {
    pub status: EventSubscriptionStatus,
    pub kinds: Seq<Seq<char>>,
    pub reason: Seq<char>,
    pub commit: Option<RendererSubscription>,
}

impl SubscriptionApply {
    pub open spec fn outcome(self) -> ApplyOutcome {
        ApplyOutcome {
            status: self.status,
            kinds: strings_view(self.kinds@),
            reason: self.reason@,
            commit: self.commit,
        }
    }
}

/// UTF-8 length of each name, summed.
pub open spec fn total_bytes(raw: Seq<Seq<char>>) -> int
    decreases raw.len(),
{
    if raw.len() == 0 {
        0
    } else {
        total_bytes(raw.drop_last()) + byte_length(raw.last())
    }
}

/// Whether the names break the byte limits.
pub open spec fn exceeds_byte_limits(raw: Seq<Seq<char>>, limits: SubscriptionLimits) -> bool {
    total_bytes(raw) > limits.max_total_bytes || exists|i: int|
        0 <= i < raw.len() && byte_length(#[trigger] raw[i]) > limits.max_kind_bytes
}

/// The set the names denote, or the first name that is no kind.
pub open spec fn parse_kinds(raw: Seq<Seq<char>>) -> Result<EventKinds, Seq<char>>
    decreases raw.len(),
{
    if raw.len() == 0 {
        Ok(EventKinds { pointer: false, mpris: false, audio: false })
    } else {
        match parse_kinds(raw.drop_last()) {
            Err(e) => Err(e),
            Ok(k) => match RendererEventKind::spec_parse(raw.last()) {
                None => Err(raw.last()),
                Some(kind) => Ok(k.with(kind)),
            },
        }
    }
}

pub open spec fn limit_reason(limits: SubscriptionLimits) -> Seq<char> {
    "event kind names are limited to "@ + decimal(limits.max_kind_bytes as nat) + " bytes each and "@
        + decimal(limits.max_total_bytes as nat) + " bytes total"@
}

/// The answer to a request for renderer entry `current` (`None` when the
/// renderer is not registered).
pub open spec fn spec_prepare(
    current: Option<RendererSubscriptionEntry>,
    revision: u64,
    raw: Seq<Seq<char>>,
    limits: SubscriptionLimits,
) -> ApplyOutcome {
    match current {
        None => ApplyOutcome {
            status: EventSubscriptionStatus::Invalid,
            kinds: Seq::empty(),
            reason: "renderer is not registered"@,
            commit: None,
        },
        Some(cur) => {
            let current_names = cur.subscription.kinds.spec_names();
            if raw.len() > limits.max_subscriptions {
                ApplyOutcome {
                    status: EventSubscriptionStatus::LimitExceeded,
                    kinds: current_names,
                    reason: "at most "@ + decimal(limits.max_subscriptions as nat)
                        + " event kinds are allowed"@,
                    commit: None,
                }
            } else if revision == 0 {
                ApplyOutcome {
                    status: EventSubscriptionStatus::Invalid,
                    kinds: current_names,
                    reason: "revision must start at 1"@,
                    commit: None,
                }
            } else if exceeds_byte_limits(raw, limits) {
                ApplyOutcome {
                    status: EventSubscriptionStatus::LimitExceeded,
                    kinds: current_names,
                    reason: limit_reason(limits),
                    commit: None,
                }
            } else {
                match parse_kinds(raw) {
                    Err(bad) => ApplyOutcome {
                        status: EventSubscriptionStatus::Invalid,
                        kinds: current_names,
                        reason: "unknown event kind "@ + debug_escaped(bad),
                        commit: None,
                    },
                    Ok(kinds) => if revision < cur.subscription.revision {
                        ApplyOutcome {
                            status: EventSubscriptionStatus::StaleRevision,
                            kinds: current_names,
                            reason: "current revision is "@ + decimal(
                                cur.subscription.revision as nat,
                            ),
                            commit: None,
                        }
                    } else if revision == cur.subscription.revision {
                        if kinds == cur.subscription.kinds {
                            ApplyOutcome {
                                status: EventSubscriptionStatus::Applied,
                                kinds: current_names,
                                reason: Seq::empty(),
                                commit: None,
                            }
                        } else {
                            ApplyOutcome {
                                status: EventSubscriptionStatus::RevisionConflict,
                                kinds: current_names,
                                reason: "revision already names a different event set"@,
                                commit: None,
                            }
                        }
                    } else {
                        ApplyOutcome {
                            status: EventSubscriptionStatus::Applied,
                            kinds: kinds.spec_names(),
                            reason: Seq::empty(),
                            commit: Some(RendererSubscription { revision, kinds }),
                        }
                    },
                }
            }
        },
    }
}

/// The next generation counter value (the counter wraps).
pub open spec fn bump(next: u64) -> u64 {
    if next == u64::MAX {
        0
    } else {
        (next + 1) as u64
    }
}

/// Membership generations after `sub` replaces `cur`: each kind whose
/// membership changed, in canonical order, takes the next counter value.
pub open spec fn next_generations(
    cur: RendererSubscriptionEntry,
    sub: RendererSubscription,
    next: u64,
) -> (MembershipGenerations, u64) {
    let g = cur.membership_generations;
    let was = cur.subscription.kinds;
    let now = sub.kinds;
    let (p, n1) = if was.pointer != now.pointer {
        (Some(next), bump(next))
    } else {
        (g.pointer, next)
    };
    let (m, n2) = if was.mpris != now.mpris {
        (Some(n1), bump(n1))
    } else {
        (g.mpris, n1)
    };
    let (a, n3) = if was.audio != now.audio {
        (Some(n2), bump(n2))
    } else {
        (g.audio, n2)
    };
    (MembershipGenerations { pointer: p, mpris: m, audio: a }, n3)
}

/// Committed subscriptions of the running renderers.
pub struct RendererSubscriptionRegistry {
    committed: Vec<(String, RendererSubscriptionEntry)>,
    next_membership_generation: u64,
    limits: SubscriptionLimits,
}

impl RendererSubscriptionRegistry {
    #[verifier::type_invariant]
    spec fn sorted(self) -> bool {
        ids_sorted(self.committed@)
    }

    /// The committed entries, in renderer-id order.
    pub closed spec fn table(self) -> Seq<(String, RendererSubscriptionEntry)> {
        self.committed@
    }

    /// The value the next membership change takes.
    pub closed spec fn next_generation(self) -> u64 {
        self.next_membership_generation
    }

    pub closed spec fn spec_limits(self) -> SubscriptionLimits {
        self.limits
    }

    pub fn new(limits: SubscriptionLimits) -> (r: Self)
        ensures
            r.table().len() == 0,
            r.next_generation() == 1,
            r.spec_limits() == limits,
    {
        RendererSubscriptionRegistry {
            committed: Vec::new(),
            next_membership_generation: 1,
            limits,
        }
    }

    /// Starts (or restarts) the entry of renderer `id` with no subscription.
    pub fn register(&mut self, id: String)
        ensures
            forall|k: Seq<char>| #[trigger] lookup(final(self).table(), k) == if k == id@ {
                Some(fresh_entry())
            } else {
                lookup(old(self).table(), k)
            },
            final(self).next_generation() == old(self).next_generation(),
            final(self).spec_limits() == old(self).spec_limits(),
    {
        proof {
            use_type_invariant(&*self);
        }
        let ghost before = self.committed@;
        let key = chars_of(id.as_str());
        let (found, pos) = locate(&self.committed, key.as_slice());
        let ghost idv = id@;
        let mut table: Vec<(String, RendererSubscriptionEntry)> = Vec::new();
        std::mem::swap(&mut table, &mut self.committed);
        if found {
            table.set(pos, (id, new_entry()));
        } else {
            table.insert(pos, (id, new_entry()));
        }
        proof {
            lemma_put(before, table@, idv, pos as int, found);
        }
        self.committed = table;
    }

    /// Forgets renderer `id`.
    pub fn remove(&mut self, id: &str)
        ensures
            forall|k: Seq<char>| #[trigger] lookup(final(self).table(), k) == if k == id@ {
                None
            } else {
                lookup(old(self).table(), k)
            },
            final(self).next_generation() == old(self).next_generation(),
            final(self).spec_limits() == old(self).spec_limits(),
    {
        proof {
            use_type_invariant(&*self);
        }
        let ghost before = self.committed@;
        let key = chars_of(id);
        let (found, pos) = locate(&self.committed, key.as_slice());
        if found {
            let mut table: Vec<(String, RendererSubscriptionEntry)> = Vec::new();
            std::mem::swap(&mut table, &mut self.committed);
            table.remove(pos);
            proof {
                lemma_take_out(before, table@, id@, pos as int);
            }
            self.committed = table;
        } else {
            proof {
                assert forall|i: int| 0 <= i < before.len() implies before[i].0@ != id@ by {
                    lemma_chars_order(before[i].0@, id@);
                }
                lemma_lookup_none(before, id@);
            }
        }
    }

    /// Checks a request of renderer `id` for the complete set `raw_kinds` at
    /// `revision` against its committed entry. Nothing changes here: an
    /// applied change carries the subscription to commit.
    pub fn prepare(&self, id: &str, revision: u64, raw_kinds: &[String]) -> (r: SubscriptionApply)
        ensures
            r.revision == revision,
            r.outcome() == spec_prepare(
                lookup(self.table(), id@),
                revision,
                strings_view(raw_kinds@),
                self.spec_limits(),
            ),
    {
        proof {
            use_type_invariant(self);
        }
        let ghost raw = strings_view(raw_kinds@);
        let snapshot_entry = {
            let key = chars_of(id);
            let (found, pos) = locate(&self.committed, key.as_slice());
            if found {
                proof {
                    lemma_lookup_at(self.committed@, id@, pos as int);
                }
                Some(self.committed[pos].1)
            } else {
                proof {
                    assert forall|i: int| 0 <= i < self.committed@.len() implies self.committed@[i].0@
                        != id@ by {
                        lemma_chars_order(self.committed@[i].0@, id@);
                    }
                    lemma_lookup_none(self.committed@, id@);
                }
                None
            }
        };
        let current = match snapshot_entry {
            None => {
                let kinds: Vec<String> = Vec::new();
                assert(strings_view(kinds@) =~= Seq::<Seq<char>>::empty());
                return SubscriptionApply {
                    revision,
                    status: EventSubscriptionStatus::Invalid,
                    kinds,
                    reason: owned("renderer is not registered"),
                    commit: None,
                };
            },
            Some(c) => c,
        };
        let limits = self.limits;
        if raw_kinds.len() > limits.max_subscriptions {
            let mut reason = owned("at most ");
            push_decimal(&mut reason, limits.max_subscriptions as u64);
            push_str(&mut reason, " event kinds are allowed");
            return SubscriptionApply {
                revision,
                status: EventSubscriptionStatus::LimitExceeded,
                kinds: current.subscription.kinds.names(),
                reason,
                commit: None,
            };
        }
        if revision == 0 {
            return SubscriptionApply {
                revision,
                status: EventSubscriptionStatus::Invalid,
                kinds: current.subscription.kinds.names(),
                reason: owned("revision must start at 1"),
                commit: None,
            };
        }
        if over_byte_limits(raw_kinds, limits) {
            let mut reason = owned("event kind names are limited to ");
            push_decimal(&mut reason, limits.max_kind_bytes as u64);
            push_str(&mut reason, " bytes each and ");
            push_decimal(&mut reason, limits.max_total_bytes as u64);
            push_str(&mut reason, " bytes total");
            return SubscriptionApply {
                revision,
                status: EventSubscriptionStatus::LimitExceeded,
                kinds: current.subscription.kinds.names(),
                reason,
                commit: None,
            };
        }
        let kinds = match parse_names(raw_kinds) {
            Err(bad) => {
                let mut reason = owned("unknown event kind ");
                let quoted = debug_quote(raw_kinds[bad].as_str());
                push_str(&mut reason, quoted.as_str());
                return SubscriptionApply {
                    revision,
                    status: EventSubscriptionStatus::Invalid,
                    kinds: current.subscription.kinds.names(),
                    reason,
                    commit: None,
                };
            },
            Ok(k) => k,
        };
        if revision < current.subscription.revision {
            let mut reason = owned("current revision is ");
            push_decimal(&mut reason, current.subscription.revision);
            return SubscriptionApply {
                revision,
                status: EventSubscriptionStatus::StaleRevision,
                kinds: current.subscription.kinds.names(),
                reason,
                commit: None,
            };
        }
        if revision == current.subscription.revision {
            let same = kinds == current.subscription.kinds;
            return SubscriptionApply {
                revision,
                status: if same {
                    EventSubscriptionStatus::Applied
                } else {
                    EventSubscriptionStatus::RevisionConflict
                },
                kinds: current.subscription.kinds.names(),
                reason: if same {
                    String::new()
                } else {
                    owned("revision already names a different event set")
                },
                commit: None,
            };
        }
        SubscriptionApply {
            revision,
            status: EventSubscriptionStatus::Applied,
            kinds: kinds.names(),
            reason: String::new(),
            commit: Some(RendererSubscription { revision, kinds }),
        }
    }

    /// Makes `subscription` the committed set of renderer `id` (if it is
    /// still registered); each kind whose membership changed takes a fresh
    /// membership generation.
    pub fn commit(&mut self, id: String, subscription: RendererSubscription)
        ensures
            final(self).spec_limits() == old(self).spec_limits(),
            match lookup(old(self).table(), id@) {
                None => final(self).table() == old(self).table() && final(self).next_generation()
                    == old(self).next_generation(),
                Some(cur) => {
                    let (g, n) = next_generations(cur, subscription, old(self).next_generation());
                    &&& final(self).next_generation() == n
                    &&& forall|k: Seq<char>| #[trigger] lookup(final(self).table(), k) == if k
                        == id@ {
                        Some(
                            RendererSubscriptionEntry { subscription, membership_generations: g },
                        )
                    } else {
                        lookup(old(self).table(), k)
                    }
                },
            },
    {
        proof {
            use_type_invariant(&*self);
        }
        let ghost before = self.committed@;
        let key = chars_of(id.as_str());
        let (found, pos) = locate(&self.committed, key.as_slice());
        if !found {
            proof {
                assert forall|i: int| 0 <= i < before.len() implies before[i].0@ != id@ by {
                    lemma_chars_order(before[i].0@, id@);
                }
                lemma_lookup_none(before, id@);
            }
            return;
        }
        proof {
            lemma_lookup_at(before, id@, pos as int);
        }
        let cur = self.committed[pos].1;
        let was = cur.subscription.kinds;
        let now = subscription.kinds;
        let mut g = cur.membership_generations;
        let mut next = self.next_membership_generation;
        if was.pointer != now.pointer {
            g.pointer = Some(next);
            next = if next == u64::MAX {
                0
            } else {
                next + 1
            };
        }
        if was.mpris != now.mpris {
            g.mpris = Some(next);
            next = if next == u64::MAX {
                0
            } else {
                next + 1
            };
        }
        if was.audio != now.audio {
            g.audio = Some(next);
            next = if next == u64::MAX {
                0
            } else {
                next + 1
            };
        }
        let ghost idv = id@;
        let mut table: Vec<(String, RendererSubscriptionEntry)> = Vec::new();
        std::mem::swap(&mut table, &mut self.committed);
        table.set(pos, (id, RendererSubscriptionEntry { subscription, membership_generations: g }));
        proof {
            lemma_put(before, table@, idv, pos as int, true);
        }
        self.committed = table;
        self.next_membership_generation = next;
    }

    /// The committed entries as a snapshot.
    pub fn snapshot(&self) -> (r: RendererSubscriptionSnapshot)
        ensures
            forall|k: Seq<char>| #[trigger] lookup(r.table(), k) == lookup(self.table(), k),
            forall|kind: RendererEventKind| #[trigger] wire_list(r.table(), kind) == wire_list(
                self.table(),
                kind,
            ),
            forall|kind: RendererEventKind| #[trigger] membership_list(r.table(), kind)
                == membership_list(self.table(), kind),
    {
        proof {
            use_type_invariant(self);
        }
        let entries = copy_table(&self.committed);
        proof {
            lemma_same_keys_sorted(self.committed@, entries@);
        }
        RendererSubscriptionSnapshot { entries }
    }
}

/// Writing `(id, e)` at `pos` of a sorted table, over the entry of `id`
/// (`found`) or into its gap, keeps the table sorted and changes only the
/// entry of `id`.
proof fn lemma_put(
    before: Seq<(String, RendererSubscriptionEntry)>,
    after: Seq<(String, RendererSubscriptionEntry)>,
    id: Seq<char>,
    pos: int,
    found: bool,
)
    requires
        ids_sorted(before),
        0 <= pos <= before.len(),
        found ==> pos < before.len() && before[pos].0@ == id && after == before.update(
            pos,
            after[pos],
        ),
        !found ==> after == before.insert(pos, after[pos]) && (forall|j: int|
            0 <= j < pos ==> chars_order(#[trigger] before[j].0@, id) < 0) && (forall|j: int|
            pos <= j < before.len() ==> chars_order(#[trigger] before[j].0@, id) > 0),
        after[pos].0@ == id,
    ensures
        ids_sorted(after),
        forall|k: Seq<char>| #[trigger] lookup(after, k) == if k == id {
            Some(after[pos].1)
        } else {
            lookup(before, k)
        },
{
    let e = after[pos];
    if found {
        assert forall|i: int, j: int| 0 <= i < j < after.len() implies chars_order(
            #[trigger] after[i].0@,
            #[trigger] after[j].0@,
        ) < 0 by {
            if i == pos {
                assert(after[j] == before[j]);
            } else if j == pos {
                assert(after[i] == before[i]);
            } else {
                assert(after[i] == before[i] && after[j] == before[j]);
            }
        }
    } else {
        before.insert_ensures(pos, e);
        assert forall|i: int, j: int| 0 <= i < j < after.len() implies chars_order(
            #[trigger] after[i].0@,
            #[trigger] after[j].0@,
        ) < 0 by {
            if i == pos {
                assert(after[j] == before[j - 1]);
                lemma_chars_order(before[j - 1].0@, id);
            } else if j == pos {
                assert(after[i] == before[i]);
            } else if i < pos && j < pos {
                assert(after[i] == before[i] && after[j] == before[j]);
            } else if i < pos {
                assert(after[i] == before[i] && after[j] == before[j - 1]);
            } else {
                assert(after[i] == before[i - 1] && after[j] == before[j - 1]);
            }
        }
    }
    assert forall|k: Seq<char>| #[trigger] lookup(after, k) == if k == id {
        Some(e.1)
    } else {
        lookup(before, k)
    } by {
        if k == id {
            lemma_lookup_at(after, k, pos);
        } else if exists|i: int| 0 <= i < before.len() && before[i].0@ == k {
            let i = choose|i: int| 0 <= i < before.len() && before[i].0@ == k;
            lemma_lookup_at(before, k, i);
            if found {
                assert(i != pos);
                assert(after[i] == before[i]);
                lemma_lookup_at(after, k, i);
            } else if i < pos {
                assert(after[i] == before[i]);
                lemma_lookup_at(after, k, i);
            } else {
                assert(after[i + 1] == before[i]);
                lemma_lookup_at(after, k, i + 1);
            }
        } else {
            assert forall|i: int| 0 <= i < after.len() implies after[i].0@ != k by {
                if i != pos {
                    if found || i < pos {
                        assert(after[i] == before[i]);
                    } else {
                        assert(after[i] == before[i - 1]);
                    }
                }
            }
            lemma_lookup_none(after, k);
            lemma_lookup_none(before, k);
        }
    }
}

proof fn lemma_take_out(
    before: Seq<(String, RendererSubscriptionEntry)>,
    after: Seq<(String, RendererSubscriptionEntry)>,
    id: Seq<char>,
    pos: int,
)
    requires
        ids_sorted(before),
        0 <= pos < before.len(),
        before[pos].0@ == id,
        after == before.remove(pos),
    ensures
        ids_sorted(after),
        forall|k: Seq<char>| #[trigger] lookup(after, k) == if k == id {
            None
        } else {
            lookup(before, k)
        },
{
    before.remove_ensures(pos);
    assert forall|i: int, j: int| 0 <= i < j < after.len() implies chars_order(
        #[trigger] after[i].0@,
        #[trigger] after[j].0@,
    ) < 0 by {
        let bi = if i < pos {
            i
        } else {
            i + 1
        };
        let bj = if j < pos {
            j
        } else {
            j + 1
        };
        assert(after[i] == before[bi] && after[j] == before[bj]);
    }
    assert forall|k: Seq<char>| #[trigger] lookup(after, k) == if k == id {
        None
    } else {
        lookup(before, k)
    } by {
        if k == id {
            assert forall|i: int| 0 <= i < after.len() implies after[i].0@ != k by {
                let bi = if i < pos {
                    i
                } else {
                    i + 1
                };
                assert(after[i] == before[bi]);
                if bi < pos {
                    lemma_chars_order(before[bi].0@, before[pos].0@);
                } else {
                    lemma_chars_order(before[pos].0@, before[bi].0@);
                }
            }
            lemma_lookup_none(after, k);
        } else if exists|i: int| 0 <= i < before.len() && before[i].0@ == k {
            let i = choose|i: int| 0 <= i < before.len() && before[i].0@ == k;
            lemma_lookup_at(before, k, i);
            let ai = if i < pos {
                i
            } else {
                i - 1
            };
            assert(after[ai] == before[i]);
            lemma_lookup_at(after, k, ai);
        } else {
            assert forall|i: int| 0 <= i < after.len() implies after[i].0@ != k by {
                let bi = if i < pos {
                    i
                } else {
                    i + 1
                };
                assert(after[i] == before[bi]);
            }
            lemma_lookup_none(after, k);
            lemma_lookup_none(before, k);
        }
    }
}

fn over_byte_limits(raw: &[String], limits: SubscriptionLimits) -> (r: bool)
    ensures
        r == exceeds_byte_limits(strings_view(raw@), limits),
{
    let ghost v = strings_view(raw@);
    let mut total: usize = 0;
    let mut overflow = false;
    let mut too_long = false;
    let mut i: usize = 0;
    proof {
        assert(v.take(0) =~= Seq::<Seq<char>>::empty());
    }
    while i < raw.len()
        invariant
            0 <= i <= raw@.len(),
            v == strings_view(raw@),
            overflow ==> total_bytes(v.take(i as int)) > usize::MAX,
            !overflow ==> total == total_bytes(v.take(i as int)),
            too_long <==> exists|j: int|
                0 <= j < i && byte_length(#[trigger] v[j]) > limits.max_kind_bytes,
        decreases raw@.len() - i,
    {
        let n = byte_length_of(raw[i].as_str());
        proof {
            assert(v.take(i + 1).drop_last() =~= v.take(i as int));
            assert(v[i as int] == raw@[i as int]@);
        }
        if n > limits.max_kind_bytes {
            too_long = true;
        }
        if !overflow {
            if total > usize::MAX - n {
                overflow = true;
            } else {
                total = total + n;
            }
        }
        i = i + 1;
    }
    proof {
        assert(v.take(raw@.len() as int) =~= v);
    }
    overflow || total > limits.max_total_bytes || too_long
}

/// The set the names denote, or the index of the first name that is no
/// kind.
fn parse_names(raw: &[String]) -> (r: Result<EventKinds, usize>)
    ensures
        match parse_kinds(strings_view(raw@)) {
            Ok(k) => r == Ok::<EventKinds, usize>(k),
            Err(bad) => r matches Err(i) && i < raw@.len() && raw@[i as int]@ == bad,
        },
{
    let ghost v = strings_view(raw@);
    let mut kinds = EventKinds::empty();
    let mut i: usize = 0;
    proof {
        assert(v.take(0) =~= Seq::<Seq<char>>::empty());
    }
    while i < raw.len()
        invariant
            0 <= i <= raw@.len(),
            v == strings_view(raw@),
            parse_kinds(v.take(i as int)) == Ok::<EventKinds, Seq<char>>(kinds),
        decreases raw@.len() - i,
    {
        proof {
            assert(v.take(i + 1).drop_last() =~= v.take(i as int));
            assert(v[i as int] == raw@[i as int]@);
        }
        match RendererEventKind::parse(raw[i].as_str()) {
            None => {
                proof {
                    lemma_parse_prefix_err(v, i as int + 1);
                }
                return Err(i);
            },
            Some(kind) => {
                kinds.insert(kind);
            },
        }
        i = i + 1;
    }
    proof {
        assert(v.take(raw@.len() as int) =~= v);
    }
    Ok(kinds)
}

/// An error in a prefix is the error of the whole list.
proof fn lemma_parse_prefix_err(v: Seq<Seq<char>>, n: int)
    requires
        0 <= n <= v.len(),
        parse_kinds(v.take(n)) is Err,
    ensures
        parse_kinds(v) == parse_kinds(v.take(n)),
    decreases v.len() - n,
{
    if n < v.len() {
        assert(v.take(n + 1).drop_last() =~= v.take(n));
        lemma_parse_prefix_err(v, n + 1);
    } else {
        assert(v.take(n) =~= v);
    }
}

/// A membership generation changes only for a kind whose membership
/// changed; each such kind takes a distinct value of the counter, and the
/// counter moves on once per change.
pub proof fn law_generation_changes_only_on_toggle(
    cur: RendererSubscriptionEntry,
    sub: RendererSubscription,
    next: u64,
    kind: RendererEventKind,
)
    ensures
        ({
            let (g, n) = next_generations(cur, sub, next);
            &&& cur.subscription.kinds.has(kind) == sub.kinds.has(kind) ==> g.spec_get(kind)
                == cur.membership_generations.spec_get(kind)
            &&& cur.subscription.kinds.has(kind) != sub.kinds.has(kind) ==> g.spec_get(kind)
                is Some
            &&& (!cur.subscription.kinds.pointer && !sub.kinds.pointer || cur.subscription.kinds.pointer
                && sub.kinds.pointer) && (cur.subscription.kinds.mpris == sub.kinds.mpris) && (
            cur.subscription.kinds.audio == sub.kinds.audio) ==> n == next
        }),
{
}

/// A renderer that repeats a committed request gets `Applied` and nothing
/// to commit; one that sends an older revision is refused as stale.
pub proof fn law_replay_and_stale(
    cur: RendererSubscriptionEntry,
    raw: Seq<Seq<char>>,
    revision: u64,
    limits: SubscriptionLimits,
)
    requires
        raw.len() <= limits.max_subscriptions,
        revision > 0,
        !exceeds_byte_limits(raw, limits),
        parse_kinds(raw) is Ok,
    ensures
        revision == cur.subscription.revision && parse_kinds(raw) == Ok::<EventKinds, Seq<char>>(
            cur.subscription.kinds,
        ) ==> spec_prepare(Some(cur), revision, raw, limits).status
            == EventSubscriptionStatus::Applied && spec_prepare(Some(cur), revision, raw, limits).commit
            is None,
        revision < cur.subscription.revision ==> spec_prepare(Some(cur), revision, raw, limits).status
            == EventSubscriptionStatus::StaleRevision,
        spec_prepare(Some(cur), revision, raw, limits).commit is Some <==> revision
            > cur.subscription.revision,
{
}

} // verus!
