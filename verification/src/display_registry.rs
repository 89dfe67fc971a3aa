//! Registry of display backends: built-in definitions plus manifests, kept
//! ordered by descending priority with one definition per name.

use vstd::prelude::*;
use crate::text::{owned, str_eq};

verus! {

/// How the daemon handles a backend's lifecycle.
#[derive(Debug, Clone, Copy, PartialEq, Eq, Structural)]
pub enum SpawnMode {
    /// The daemon starts `bin` as a subprocess.
    Daemon,
    /// The desktop environment starts the backend on its own.
    External,
}

impl Default for SpawnMode {
    fn default() -> (r: Self)
        ensures
            r == SpawnMode::Daemon,
    {
        SpawnMode::Daemon
    }
}

/// One display backend.
#[derive(Debug, Clone)]
pub struct DisplayDef {
    pub name: String,
    /// Executable path; only meaningful when `spawn` is `Daemon`.
    pub bin: String,
    /// Desktop tokens (lower-case) this backend targets; `"*"` is any.
    pub de: Vec<String>,
    pub priority: i32,
    /// Capability tokens this backend needs.
    pub requires: Vec<String>,
    pub extra_args: Vec<String>,
    pub spawn: SpawnMode,
}

/// A manifest file: one `[display]` table.
#[derive(Debug, Clone)]
pub struct DisplayManifest {
    pub display: DisplayDef,
}

/// Priority of a manifest that names none.
pub fn default_priority() -> (r: i32)
    ensures
        r == 100,
{
    100
}

/// Executable name of the layer-shell backend when no sibling of the daemon
/// binary is found.
pub const LAYER_SHELL_BIN: &'static str = "waywallen-layer-shell";

/// The three built-in backends, with `layer_shell_bin` the executable of
/// the layer-shell one: kde-plasma and gnome-shell, run by their desktops
/// (priority 100), then layer-shell, spawned by the daemon (priority 50).
pub open spec fn is_builtin_defs(r: Seq<DisplayDef>, layer_shell_bin: Seq<char>) -> bool {
    &&& r.len() == 3
    &&& r[0].name@ == "kde-plasma"@
    &&& r[0].bin@ == Seq::<char>::empty()
    &&& r[0].de@.len() == 1 && r[0].de@[0]@ == "kde"@
    &&& r[0].priority == 100
    &&& r[0].requires@.len() == 0 && r[0].extra_args@.len() == 0
    &&& r[0].spawn == SpawnMode::External
    &&& r[1].name@ == "gnome-shell"@
    &&& r[1].bin@ == Seq::<char>::empty()
    &&& r[1].de@.len() == 1 && r[1].de@[0]@ == "gnome"@
    &&& r[1].priority == 100
    &&& r[1].requires@.len() == 0 && r[1].extra_args@.len() == 0
    &&& r[1].spawn == SpawnMode::External
    &&& r[2].name@ == "layer-shell"@
    &&& r[2].bin@ == layer_shell_bin
    &&& r[2].de@.len() == 5
    &&& r[2].de@[0]@ == "hyprland"@ && r[2].de@[1]@ == "sway"@ && r[2].de@[2]@ == "niri"@
        && r[2].de@[3]@ == "river"@ && r[2].de@[4]@ == "cosmic"@
    &&& r[2].priority == 50
    &&& r[2].requires@.len() == 2
    &&& r[2].requires@[0]@ == "wlr-layer-shell"@ && r[2].requires@[1]@ == "linux-dmabuf-v4"@
    &&& r[2].extra_args@.len() == 0
    &&& r[2].spawn == SpawnMode::Daemon
}

/// The three backends available without a manifest; `layer_shell_bin` is the
/// executable found for the layer-shell backend.
pub fn builtin_display_defs(layer_shell_bin: String) -> (r: Vec<DisplayDef>)
    ensures
        is_builtin_defs(r@, layer_shell_bin@),
{
    let kde = DisplayDef {
        name: owned("kde-plasma"),
        bin: String::new(),
        de: vec![owned("kde")],
        priority: 100,
        requires: Vec::new(),
        extra_args: Vec::new(),
        spawn: SpawnMode::External,
    };
    let gnome = DisplayDef {
        name: owned("gnome-shell"),
        bin: String::new(),
        de: vec![owned("gnome")],
        priority: 100,
        requires: Vec::new(),
        extra_args: Vec::new(),
        spawn: SpawnMode::External,
    };
    let layer = DisplayDef {
        name: owned("layer-shell"),
        bin: layer_shell_bin,
        de: vec![owned("hyprland"), owned("sway"), owned("niri"), owned("river"), owned("cosmic")],
        priority: 50,
        requires: vec![owned("wlr-layer-shell"), owned("linux-dmabuf-v4")],
        extra_args: Vec::new(),
        spawn: SpawnMode::Daemon,
    };
    vec![kde, gnome, layer]
}

// ---------------------------------------------------------------------------
// Ordering model

/// Priorities never increase along the sequence.
pub open spec fn sorted_by_priority(s: Seq<DisplayDef>) -> bool {
    forall|i: int, j: int| 0 <= i < j < s.len() ==> s[i].priority >= s[j].priority
}

/// No two definitions share a name.
pub open spec fn unique_names(s: Seq<DisplayDef>) -> bool {
    forall|i: int, j: int| 0 <= i < s.len() && 0 <= j < s.len() && i != j ==> s[i].name@ != s[j].name@
}

/// The definitions not named `name`, in their order.
pub open spec fn without_name(s: Seq<DisplayDef>, name: Seq<char>) -> Seq<DisplayDef>
    decreases s.len(),
{
    if s.len() == 0 {
        s
    } else {
        let w = without_name(s.drop_last(), name);
        if s.last().name@ == name {
            w
        } else {
            w.push(s.last())
        }
    }
}

/// Index of the first definition whose priority is below `p` (the length
/// when there is none).
pub open spec fn first_below(s: Seq<DisplayDef>, p: i32) -> int
    decreases s.len(),
{
    if s.len() == 0 {
        0
    } else {
        let r = first_below(s.drop_last(), p);
        if r < s.len() - 1 {
            r
        } else if s.last().priority < p {
            s.len() - 1
        } else {
            s.len() as int
        }
    }
}

/// The sequence after registering `def`: entries of the same name leave,
/// and `def` goes after every remaining entry of equal or higher priority,
/// which is where a stable sort by descending priority puts it.
pub open spec fn registered(s: Seq<DisplayDef>, def: DisplayDef) -> Seq<DisplayDef> {
    let kept = without_name(s, def.name@);
    kept.insert(first_below(kept, def.priority), def)
}

/// Registering each of `defs` in order.
pub open spec fn registered_all(s: Seq<DisplayDef>, defs: Seq<DisplayDef>) -> Seq<DisplayDef>
    decreases defs.len(),
{
    if defs.len() == 0 {
        s
    } else {
        registered(registered_all(s, defs.drop_last()), defs.last())
    }
}

/// The definition named `name`, if any.
pub open spec fn find_named(s: Seq<DisplayDef>, name: Seq<char>) -> Option<DisplayDef> {
    if exists|i: int| 0 <= i < s.len() && s[i].name@ == name {
        Some(s[choose|i: int| 0 <= i < s.len() && s[i].name@ == name])
    } else {
        None
    }
}

proof fn lemma_without_name(s: Seq<DisplayDef>, name: Seq<char>)
    ensures
        forall|x: DisplayDef| #[trigger]
            without_name(s, name).contains(x) <==> (s.contains(x) && x.name@ != name),
        sorted_by_priority(s) ==> sorted_by_priority(without_name(s, name)),
        unique_names(s) ==> unique_names(without_name(s, name)),
        without_name(s, name).len() <= s.len(),
    decreases s.len(),
{
    if s.len() > 0 {
        let d = s.drop_last();
        lemma_without_name(d, name);
        let w = without_name(d, name);
        let ws = without_name(s, name);
        assert forall|x: DisplayDef| #[trigger] ws.contains(x) <==> (s.contains(x) && x.name@
            != name) by {
            if s.contains(x) && x.name@ != name {
                let i = choose|i: int| 0 <= i < s.len() && s[i] == x;
                if i < s.len() - 1 {
                    assert(d[i] == x);
                    assert(d.contains(x));
                    assert(w.contains(x));
                    let k = choose|k: int| 0 <= k < w.len() && w[k] == x;
                    assert(ws[k] == x);
                } else {
                    assert(s.last() == x);
                    assert(ws[ws.len() - 1] == x);
                }
            }
            if ws.contains(x) {
                let i = choose|i: int| 0 <= i < ws.len() && ws[i] == x;
                if i < w.len() {
                    assert(w[i] == x);
                    assert(w.contains(x));
                    let k = choose|k: int| 0 <= k < d.len() && d[k] == x;
                    assert(s[k] == x);
                } else {
                    assert(s.last().name@ != name);
                    assert(s[s.len() - 1] == x);
                }
            }
        }
        if sorted_by_priority(s) {
            assert(sorted_by_priority(d));
            if s.last().name@ != name {
                assert forall|i: int, j: int|
                    0 <= i < j < without_name(s, name).len() implies without_name(s, name)[i].priority
                    >= without_name(s, name)[j].priority by {
                    let ws = without_name(s, name);
                    if j == ws.len() - 1 {
                        assert(ws[i] == w[i]);
                        assert(w.contains(w[i]));
                        let k = choose|k: int| 0 <= k < d.len() && d[k] == w[i];
                        assert(s[k] == d[k]);
                    } else {
                        assert(ws[i] == w[i] && ws[j] == w[j]);
                    }
                }
            }
        }
        if unique_names(s) {
            assert(unique_names(d));
            if s.last().name@ != name {
                assert forall|i: int, j: int|
                    0 <= i < without_name(s, name).len() && 0 <= j < without_name(s, name).len()
                        && i != j implies without_name(s, name)[i].name@ != without_name(
                    s,
                    name,
                )[j].name@ by {
                    let ws = without_name(s, name);
                    if i == ws.len() - 1 || j == ws.len() - 1 {
                        let o = if i == ws.len() - 1 {
                            j
                        } else {
                            i
                        };
                        assert(ws[o] == w[o]);
                        assert(w.contains(w[o]));
                        let k = choose|k: int| 0 <= k < d.len() && d[k] == w[o];
                        assert(s[k] == d[k]);
                        assert(s[s.len() - 1] == s.last());
                    } else {
                        assert(ws[i] == w[i] && ws[j] == w[j]);
                    }
                }
            }
        }
    }
}

proof fn lemma_first_below(s: Seq<DisplayDef>, p: i32)
    ensures
        0 <= first_below(s, p) <= s.len(),
        forall|j: int| 0 <= j < first_below(s, p) ==> #[trigger] s[j].priority >= p,
        first_below(s, p) < s.len() ==> s[first_below(s, p)].priority < p,
    decreases s.len(),
{
    if s.len() > 0 {
        let d = s.drop_last();
        lemma_first_below(d, p);
        assert forall|j: int| 0 <= j < first_below(s, p) implies #[trigger] s[j].priority >= p by {
            if j < s.len() - 1 {
                assert(s[j] == d[j]);
            }
        }
        if first_below(d, p) < d.len() {
            assert(s[first_below(s, p)] == d[first_below(d, p)]);
        }
    }
}

/// Registering keeps the order and the uniqueness of names.
proof fn lemma_registered(s: Seq<DisplayDef>, def: DisplayDef)
    requires
        sorted_by_priority(s),
        unique_names(s),
    ensures
        sorted_by_priority(registered(s, def)),
        unique_names(registered(s, def)),
        forall|x: DisplayDef| #[trigger]
            registered(s, def).contains(x) <==> (x == def || (s.contains(x) && x.name@
                != def.name@)),
{
    let kept = without_name(s, def.name@);
    lemma_without_name(s, def.name@);
    lemma_first_below(kept, def.priority);
    let k = first_below(kept, def.priority);
    let r = registered(s, def);
    kept.insert_ensures(k, def);
    assert forall|i: int, j: int| 0 <= i < j < r.len() implies r[i].priority >= r[j].priority by {
        if j < k {
        } else if j == k {
        } else if i < k {
            assert(r[j] == kept[j - 1]);
        } else if i == k {
            assert(r[j] == kept[j - 1]);
        } else {
            assert(r[i] == kept[i - 1] && r[j] == kept[j - 1]);
        }
    }
    assert forall|i: int, j: int|
        0 <= i < r.len() && 0 <= j < r.len() && i != j implies r[i].name@ != r[j].name@ by {
        if i == k || j == k {
            let o = if i == k {
                j
            } else {
                i
            };
            let ko = if o < k {
                o
            } else {
                o - 1
            };
            assert(r[o] == kept[ko]);
            assert(kept.contains(kept[ko]));
        } else {
            let ki = if i < k {
                i
            } else {
                i - 1
            };
            let kj = if j < k {
                j
            } else {
                j - 1
            };
            assert(r[i] == kept[ki] && r[j] == kept[kj]);
        }
    }
    assert forall|x: DisplayDef| #[trigger]
        r.contains(x) <==> (x == def || (s.contains(x) && x.name@ != def.name@)) by {
        if x == def {
            assert(r[k] == def);
        } else if s.contains(x) && x.name@ != def.name@ {
            assert(kept.contains(x));
            let i = choose|i: int| 0 <= i < kept.len() && kept[i] == x;
            if i < k {
                assert(r[i] == x);
            } else {
                assert(r[i + 1] == x);
            }
        }
        if r.contains(x) && x != def {
            let i = choose|i: int| 0 <= i < r.len() && r[i] == x;
            if i < k {
                assert(kept[i] == x);
            } else {
                assert(i != k);
                assert(kept[i - 1] == x);
            }
            assert(kept.contains(x));
        }
    }
}

proof fn lemma_registered_all(s: Seq<DisplayDef>, defs: Seq<DisplayDef>)
    requires
        sorted_by_priority(s),
        unique_names(s),
    ensures
        sorted_by_priority(registered_all(s, defs)),
        unique_names(registered_all(s, defs)),
    decreases defs.len(),
{
    if defs.len() > 0 {
        lemma_registered_all(s, defs.drop_last());
        lemma_registered(registered_all(s, defs.drop_last()), defs.last());
    }
}

/// A definition list whose names are distinct and whose priorities never
/// increase comes out of registration in order unchanged.
proof fn lemma_registered_in_order(defs: Seq<DisplayDef>)
    requires
        sorted_by_priority(defs),
        unique_names(defs),
    ensures
        registered_all(Seq::empty(), defs) == defs,
    decreases defs.len(),
{
    if defs.len() > 0 {
        let d = defs.drop_last();
        let last = defs.last();
        assert forall|i: int, j: int| 0 <= i < j < d.len() implies d[i].priority >= d[j].priority by {
            assert(defs[i] == d[i] && defs[j] == d[j]);
        }
        assert forall|i: int, j: int| 0 <= i < d.len() && 0 <= j < d.len() && i != j implies d[i].name@ != d[j].name@ by {
            assert(defs[i] == d[i] && defs[j] == d[j]);
        }
        lemma_registered_in_order(d);
        assert forall|i: int| 0 <= i < d.len() implies (#[trigger] d[i]).name@ != last.name@ && d[i].priority >= last.priority by {
            assert(defs[i] == d[i]);
            assert(defs[defs.len() - 1] == last);
        }
        lemma_without_absent(d, last.name@);
        lemma_first_below_none(d, last.priority);
        assert(d.insert(d.len() as int, last) =~= defs);
    }
}

proof fn lemma_without_absent(s: Seq<DisplayDef>, name: Seq<char>)
    requires
        forall|i: int| 0 <= i < s.len() ==> (#[trigger] s[i]).name@ != name,
    ensures
        without_name(s, name) == s,
    decreases s.len(),
{
    if s.len() > 0 {
        let d = s.drop_last();
        assert forall|i: int| 0 <= i < d.len() implies (#[trigger] d[i]).name@ != name by {
            assert(s[i] == d[i]);
        }
        lemma_without_absent(d, name);
        assert(d.push(s.last()) =~= s);
    }
}

proof fn lemma_first_below_none(s: Seq<DisplayDef>, p: i32)
    requires
        forall|i: int| 0 <= i < s.len() ==> (#[trigger] s[i]).priority >= p,
    ensures
        first_below(s, p) == s.len(),
    decreases s.len(),
{
    if s.len() > 0 {
        let d = s.drop_last();
        assert forall|i: int| 0 <= i < d.len() implies (#[trigger] d[i]).priority >= p by {
            assert(s[i] == d[i]);
        }
        lemma_first_below_none(d, p);
    }
}

/// Registering `def` into `s` put it at `k`: the others are `s` without
/// its name, in order, those before `k` of equal or higher priority and
/// those after of lower priority.
pub open spec fn placed_at(s: Seq<DisplayDef>, def: DisplayDef, k: int) -> bool {
    let r = registered(s, def);
    &&& 0 <= k < r.len()
    &&& r[k] == def
    &&& r.remove(k) == without_name(s, def.name@)
    &&& forall|i: int| 0 <= i < k ==> (#[trigger] r[i]).priority >= def.priority
    &&& forall|i: int| k < i < r.len() ==> (#[trigger] r[i]).priority < def.priority
}

/// Registration keeps the registry's names unique and its order by
/// descending priority, whatever is registered; the new definition is the
/// one found under its name, and every other definition stays. It is a
/// stable sort by descending priority of the old entries without the name
/// followed by the new one: the new definition comes after every entry of
/// equal or higher priority and before every lower one, the others keeping
/// their order.
pub proof fn law_register_keeps_names_unique_and_sorted(s: Seq<DisplayDef>, def: DisplayDef)
    requires
        sorted_by_priority(s),
        unique_names(s),
    ensures
        sorted_by_priority(registered(s, def)),
        unique_names(registered(s, def)),
        find_named(registered(s, def), def.name@) == Some(def),
        forall|x: DisplayDef| #[trigger]
            registered(s, def).contains(x) <==> (x == def || (s.contains(x) && x.name@ != def.name@)),
        exists|k: int| #[trigger] placed_at(s, def, k),
{
    lemma_registered(s, def);
    let r = registered(s, def);
    assert(r.contains(def));
    let i = choose|i: int| 0 <= i < r.len() && r[i] == def;
    lemma_find_named(r, def.name@, i);
    let kept = without_name(s, def.name@);
    lemma_without_name(s, def.name@);
    lemma_first_below(kept, def.priority);
    let k = first_below(kept, def.priority);
    assert(r.remove(k) =~= kept);
    assert forall|j: int| k < j < r.len() implies (#[trigger] r[j]).priority < def.priority by {
        assert(r[j] == kept[j - 1]);
        if j - 1 > k {
            assert(kept[k].priority >= kept[j - 1].priority);
        }
    }
    assert forall|j: int| 0 <= j < k implies (#[trigger] r[j]).priority >= def.priority by {
        assert(r[j] == kept[j]);
    }
    assert(r[k] == def);
    assert(placed_at(s, def, k));
}

// ---------------------------------------------------------------------------
// Registry

/// Display backends by descending priority; ties keep registration order.
pub struct DisplayRegistry {
    defs: Vec<DisplayDef>,
}

impl View for DisplayRegistry {
    type V = Seq<DisplayDef>;

    closed spec fn view(&self) -> Seq<DisplayDef> {
        self.defs@
    }
}

impl DisplayRegistry {
    #[verifier::type_invariant]
    spec fn well_formed(self) -> bool {
        sorted_by_priority(self.defs@) && unique_names(self.defs@)
    }

    /// An empty registry.
    pub fn new() -> (r: Self)
        ensures
            r@ == Seq::<DisplayDef>::empty(),
    {
        DisplayRegistry { defs: Vec::new() }
    }

    /// A registry holding the built-in backends, registered in order:
    /// exactly those `builtin_display_defs` gives, in that order.
    pub fn with_builtins(layer_shell_bin: String) -> (r: Self)
        ensures
            is_builtin_defs(r@, layer_shell_bin@),
    {
        let defs = builtin_display_defs(layer_shell_bin);
        let ghost b = defs@;
        let mut registry = Self::new();
        registry.register_all(defs);
        proof {
            reveal_strlit("kde-plasma");
            reveal_strlit("gnome-shell");
            reveal_strlit("layer-shell");
            assert(b[0].name@.len() != b[1].name@.len());
            assert(b[0].name@.len() != b[2].name@.len());
            assert(b[1].name@[0] != b[2].name@[0]);
            lemma_registered_in_order(b);
        }
        registry
    }

    /// Registers each definition in order.
    pub fn register_all(&mut self, defs: Vec<DisplayDef>)
        ensures
            final(self)@ == registered_all(old(self)@, defs@),
    {
        let ghost start = self@;
        let ghost all = defs@;
        let mut rest = defs;
        let mut i: usize = 0;
        let n = rest.len();
        proof {
            assert(all.take(0) =~= Seq::<DisplayDef>::empty());
        }
        while i < n
            invariant
                n == all.len(),
                0 <= i <= n,
                rest@ == all.skip(i as int),
                self@ == registered_all(start, all.take(i as int)),
            decreases n - i,
        {
            let def = rest.remove(0);
            proof {
                assert(def == all[i as int]);
                assert(all.take(i + 1).drop_last() =~= all.take(i as int));
            }
            self.register(def);
            i = i + 1;
        }
        proof {
            assert(all.take(n as int) =~= all);
        }
    }

    /// Adds `def`, replacing any definition of the same name, and keeps the
    /// order by descending priority (ties in registration order).
    pub fn register(&mut self, def: DisplayDef)
        ensures
            final(self)@ == registered(old(self)@, def),
            find_named(final(self)@, def.name@) == Some(def),
            forall|n: Seq<char>|
                n != def.name@ ==> #[trigger] find_named(final(self)@, n) == find_named(
                    old(self)@,
                    n,
                ),
    {
        proof {
            use_type_invariant(&*self);
        }
        let ghost old_defs = self.defs@;
        let mut old_vec: Vec<DisplayDef> = Vec::new();
        std::mem::swap(&mut old_vec, &mut self.defs);
        let n = old_vec.len();
        let mut kept: Vec<DisplayDef> = Vec::new();
        let mut i: usize = 0;
        proof {
            assert(old_defs.take(0) =~= Seq::<DisplayDef>::empty());
        }
        while i < n
            invariant
                n == old_defs.len(),
                0 <= i <= n,
                old_vec@ == old_defs.skip(i as int),
                kept@ == without_name(old_defs.take(i as int), def.name@),
            decreases n - i,
        {
            let d = old_vec.remove(0);
            proof {
                assert(d == old_defs[i as int]);
                assert(old_defs.take(i + 1).drop_last() =~= old_defs.take(i as int));
            }
            if !str_eq(d.name.as_str(), def.name.as_str()) {
                kept.push(d);
            }
            i = i + 1;
        }
        proof {
            assert(old_defs.take(n as int) =~= old_defs);
        }
        let m = kept.len();
        let mut k: usize = 0;
        let mut j: usize = 0;
        proof {
            assert(kept@.take(0) =~= Seq::<DisplayDef>::empty());
        }
        while j < m
            invariant
                m == kept@.len(),
                0 <= j <= m,
                k as int == first_below(kept@.take(j as int), def.priority),
                k <= j,
            decreases m - j,
        {
            proof {
                assert(kept@.take(j + 1).drop_last() =~= kept@.take(j as int));
                lemma_first_below(kept@.take(j as int), def.priority);
            }
            if k == j && kept[j].priority >= def.priority {
                k = j + 1;
            }
            j = j + 1;
        }
        proof {
            assert(kept@.take(m as int) =~= kept@);
            lemma_registered(old_defs, def);
            lemma_without_name(old_defs, def.name@);
            lemma_first_below(kept@, def.priority);
        }
        let ghost def_v = def;
        kept.insert(k, def);
        self.defs = kept;
        proof {
            let r = self.defs@;
            assert(r == registered(old_defs, def_v));
            assert(r[k as int] == def_v);
            lemma_find_named(r, def_v.name@, k as int);
            assert forall|nm: Seq<char>| nm != def_v.name@ implies #[trigger] find_named(r, nm)
                == find_named(old_defs, nm) by {
                lemma_find_named_same(old_defs, r, def_v, nm);
            }
        }
    }

    /// All definitions, by descending priority.
    pub fn all(&self) -> (r: &[DisplayDef])
        ensures
            r@ == self@,
            sorted_by_priority(r@),
            unique_names(r@),
    {
        proof {
            use_type_invariant(self);
        }
        self.defs.as_slice()
    }

    /// The definition named `name`, if any.
    pub fn find(&self, name: &str) -> (r: Option<&DisplayDef>)
        ensures
            match r {
                Some(d) => find_named(self@, name@) == Some(*d),
                None => find_named(self@, name@) is None,
            },
            r is Some <==> exists|i: int| 0 <= i < self@.len() && self@[i].name@ == name@,
    {
        proof {
            use_type_invariant(self);
        }
        let mut i: usize = 0;
        while i < self.defs.len()
            invariant
                0 <= i <= self.defs@.len(),
                unique_names(self.defs@),
                forall|j: int| 0 <= j < i ==> #[trigger] self.defs@[j].name@ != name@,
            decreases self.defs@.len() - i,
        {
            if str_eq(self.defs[i].name.as_str(), name) {
                proof {
                    lemma_find_named(self.defs@, name@, i as int);
                }
                return Some(&self.defs[i]);
            }
            i = i + 1;
        }
        None
    }
}

proof fn lemma_find_named(s: Seq<DisplayDef>, name: Seq<char>, i: int)
    requires
        unique_names(s),
        0 <= i < s.len(),
        s[i].name@ == name,
    ensures
        find_named(s, name) == Some(s[i]),
{
    let c = choose|c: int| 0 <= c < s.len() && s[c].name@ == name;
    assert(c == i);
}

proof fn lemma_find_named_same(s: Seq<DisplayDef>, r: Seq<DisplayDef>, def: DisplayDef, nm: Seq<char>)
    requires
        unique_names(s),
        unique_names(r),
        nm != def.name@,
        forall|x: DisplayDef| #[trigger]
            r.contains(x) <==> (x == def || (s.contains(x) && x.name@ != def.name@)),
    ensures
        find_named(r, nm) == find_named(s, nm),
{
    if exists|i: int| 0 <= i < s.len() && s[i].name@ == nm {
        let i = choose|i: int| 0 <= i < s.len() && s[i].name@ == nm;
        assert(s.contains(s[i]));
        assert(r.contains(s[i]));
        let j = choose|j: int| 0 <= j < r.len() && r[j] == s[i];
        lemma_find_named(s, nm, i);
        lemma_find_named(r, nm, j);
    } else if exists|j: int| 0 <= j < r.len() && r[j].name@ == nm {
        let j = choose|j: int| 0 <= j < r.len() && r[j].name@ == nm;
        assert(r.contains(r[j]));
        assert(s.contains(r[j]));
        let i = choose|i: int| 0 <= i < s.len() && s[i] == r[j];
        assert(s[i].name@ == nm);
    }
}

/// The registry from the built-ins, then each scanned manifest in order
/// (a later definition replaces an earlier one of the same name).
pub fn build_default_registry(layer_shell_bin: String, scanned: Vec<DisplayDef>) -> (r:
    DisplayRegistry)
    ensures
        exists|b: Seq<DisplayDef>| is_builtin_defs(b, layer_shell_bin@) && #[trigger] registered_all(b, scanned@) == r@,
{
    let mut registry = DisplayRegistry::with_builtins(layer_shell_bin);
    let ghost before = registry@;
    registry.register_all(scanned);
    registry
}

/// Under the manifest's directory a relative, non-empty `bin` is resolved
/// against it; absolute or empty paths stay as written.
pub open spec fn spec_resolve_bin(bin: Seq<char>, manifest_dir: Option<Seq<char>>) -> Seq<char> {
    if bin.len() > 0 && bin[0] != '/' {
        match manifest_dir {
            Some(dir) => if dir.len() == 0 {
                bin
            } else if dir.last() == '/' {
                dir + bin
            } else {
                dir.push('/') + bin
            },
            None => bin,
        }
    } else {
        bin
    }
}

/// Resolves a manifest's `bin` against the directory holding the manifest.
pub fn resolve_bin(bin: &str, manifest_dir: Option<&str>) -> (r: String)
    ensures
        r@ == spec_resolve_bin(
            bin@,
            match manifest_dir {
                Some(d) => Some(d@),
                None => None,
            },
        ),
{
    let b = crate::text::chars_of(bin);
    if b.len() == 0 || b[0] == '/' {
        return owned(bin);
    }
    match manifest_dir {
        None => owned(bin),
        Some(dir) => {
            let d = crate::text::chars_of(dir);
            if d.len() == 0 {
                return owned(bin);
            }
            let mut out = owned(dir);
            if d[d.len() - 1] != '/' {
                crate::text::push_char(&mut out, '/');
            }
            crate::text::push_str(&mut out, bin);
            out
        },
    }
}

} // verus!
