//! How stored settings resolve for one display (per-display preferences
//! win, field by field, over the global ones), and how a plugin's stored
//! settings are brought in line with the schema its manifest declares.

use vstd::prelude::*;
use crate::auto_replay::AutoRules;
use crate::geometry::{Align, FillMode, Location, Rotation};
use crate::text::str_eq;

verus! {

/// The layout a display ends up with.
#[derive(Debug, Clone, Copy, PartialEq, Eq, Structural)]
pub struct ResolvedLayout {
    pub fillmode: FillMode,
    pub location: Location,
    pub rotation: Rotation,
}

/// The global layout settings.
#[derive(Debug, Clone, Copy, PartialEq, Eq, Structural)]
pub struct LayoutDefaults {
    pub fillmode: FillMode,
    pub align: Align,
    pub location: Option<Location>,
    pub rotation: Rotation,
}

/// A display's own layout preferences; each field overrides the global
/// one when set.
#[derive(Debug, Clone, Copy, PartialEq, Eq, Structural)]
pub struct DisplayLayoutPrefs {
    pub fillmode: Option<FillMode>,
    pub location: Option<Location>,
    pub align: Option<Align>,
    pub rotation: Option<Rotation>,
}

/// The location an alignment stands for (see `Location::from_align`).
pub open spec fn align_location(a: Align) -> Location {
    Location { x: a.h_percent(), y: a.v_percent() }
}

pub open spec fn spec_resolved_layout(defaults: LayoutDefaults, prefs: Option<DisplayLayoutPrefs>) -> ResolvedLayout {
    let default_location = match defaults.location {
        Some(l) => l,
        None => align_location(defaults.align),
    };
    ResolvedLayout {
        fillmode: match prefs {
            Some(p) => match p.fillmode {
                Some(f) => f,
                None => defaults.fillmode,
            },
            None => defaults.fillmode,
        },
        location: match prefs {
            Some(p) => match p.location {
                Some(l) => l,
                None => match p.align {
                    Some(a) => align_location(a),
                    None => default_location,
                },
            },
            None => default_location,
        },
        rotation: match prefs {
            Some(p) => match p.rotation {
                Some(r) => r,
                None => defaults.rotation,
            },
            None => defaults.rotation,
        },
    }
}

/// Per-display preferences win field by field: a display without
/// preferences gets the global fill mode, rotation and location (the global
/// location, else the global alignment's); with preferences, each field the
/// display sets is taken as set, and each one it leaves unset is what the
/// display would get without preferences, except that a display's own
/// alignment stands in for its unset location.
pub proof fn law_display_overrides_win_field_by_field(defaults: LayoutDefaults, p: DisplayLayoutPrefs)
    ensures
        ({
            let global = spec_resolved_layout(defaults, None);
            let own = spec_resolved_layout(defaults, Some(p));
            &&& global.fillmode == defaults.fillmode
            &&& global.rotation == defaults.rotation
            &&& global.location == match defaults.location {
                Some(l) => l,
                None => align_location(defaults.align),
            }
            &&& own.fillmode == match p.fillmode {
                Some(f) => f,
                None => global.fillmode,
            }
            &&& own.rotation == match p.rotation {
                Some(r) => r,
                None => global.rotation,
            }
            &&& p.location matches Some(l) ==> own.location == l
            &&& p.location is None && p.align is Some ==> own.location == align_location(p.align->0)
            &&& p.location is None && p.align is None ==> own.location == global.location
        }),
{
}

/// The effective layout of a display: its own fill mode, location (or
/// alignment) and rotation where set, the global ones otherwise; a global
/// location wins over the global alignment.
pub fn resolved_layout(defaults: LayoutDefaults, prefs: Option<DisplayLayoutPrefs>) -> (r: ResolvedLayout)
    ensures
        r == spec_resolved_layout(defaults, prefs),
{
    let default_location = match defaults.location {
        Some(l) => l,
        None => Location::from_align(defaults.align),
    };
    match prefs {
        None => ResolvedLayout { fillmode: defaults.fillmode, location: default_location, rotation: defaults.rotation },
        Some(p) => ResolvedLayout {
            fillmode: match p.fillmode {
                Some(f) => f,
                None => defaults.fillmode,
            },
            location: match p.location {
                Some(l) => l,
                None => match p.align {
                    Some(a) => Location::from_align(a),
                    None => default_location,
                },
            },
            rotation: match p.rotation {
                Some(r) => r,
                None => defaults.rotation,
            },
        },
    }
}

/// The display's own auto-replay rules, else the global ones, else the
/// built-in defaults.
pub fn resolved_auto_replay(display: Option<AutoRules>, global: Option<AutoRules>, defaults: AutoRules) -> (r:
    AutoRules)
    ensures
        r == match display {
            Some(d) => d,
            None => match global {
                Some(g) => g,
                None => defaults,
            },
        },
{
    match display {
        Some(d) => d,
        None => match global {
            Some(g) => g,
            None => defaults,
        },
    }
}

/// The display's last wallpaper, else the global one.
pub fn resolved_last_wallpaper(display: Option<String>, global: Option<String>) -> (r: Option<String>)
    ensures
        r == match display {
            Some(d) => Some(d),
            None => global,
        },
{
    match display {
        Some(d) => Some(d),
        None => global,
    }
}

/// One key a renderer manifest declares, with its default value and
/// whether the stored value (if any) is within the key's bounds.
#[derive(Debug, Clone)]
pub struct SchemaKey {
    pub key: String,
    pub default: String,
    /// A value is stored for the key and satisfies its bounds.
    pub stored_value_ok: bool,
}

/// The value stored under `key`, if any (the last entry for it).
pub open spec fn lookup(table: Seq<(String, String)>, key: Seq<char>) -> Option<Seq<char>>
    decreases table.len(),
{
    if table.len() == 0 {
        None
    } else if table.last().0@ == key {
        Some(table.last().1@)
    } else {
        lookup(table.drop_last(), key)
    }
}

/// The schema entry of `key`, if declared (the last one for it).
pub open spec fn schema_entry(schema: Seq<SchemaKey>, key: Seq<char>) -> Option<SchemaKey>
    decreases schema.len(),
{
    if schema.len() == 0 {
        None
    } else if schema.last().key@ == key {
        Some(schema.last())
    } else {
        schema_entry(schema.drop_last(), key)
    }
}

pub open spec fn unique_table_keys(table: Seq<(String, String)>) -> bool {
    forall|i: int, j: int| 0 <= i < j < table.len() ==> table[i].0@ != table[j].0@
}

/// What a reconciled table holds under `key`: nothing for an undeclared
/// key, the stored value when it is within bounds, else the default.
pub open spec fn reconciled_value(table: Seq<(String, String)>, schema: Seq<SchemaKey>, key: Seq<char>) -> Option<
    Seq<char>,
> {
    match schema_entry(schema, key) {
        None => None,
        Some(e) => if e.stored_value_ok {
            lookup(table, key)
        } else {
            Some(e.default@)
        },
    }
}

/// Whether reconciling changes the table: a key the schema no longer
/// declares goes, or a declared key gets a default it did not hold.
pub open spec fn reconcile_changes(table: Seq<(String, String)>, schema: Seq<SchemaKey>) -> bool {
    ||| exists|i: int| 0 <= i < table.len() && schema_entry(schema, #[trigger] table[i].0@) is None
    ||| exists|j: int|
        0 <= j < schema.len() && !(#[trigger] schema[j]).stored_value_ok && lookup(table, schema[j].key@)
            != Some(schema[j].default@)
}

proof fn lemma_lookup_index(table: Seq<(String, String)>, i: int)
    requires
        unique_table_keys(table),
        0 <= i < table.len(),
    ensures
        lookup(table, table[i].0@) == Some(table[i].1@),
    decreases table.len(),
{
    if i < table.len() - 1 {
        lemma_lookup_index(table.drop_last(), i);
    }
}

proof fn lemma_lookup_absent(table: Seq<(String, String)>, key: Seq<char>)
    requires
        forall|i: int| 0 <= i < table.len() ==> (#[trigger] table[i]).0@ != key,
    ensures
        lookup(table, key) is None,
    decreases table.len(),
{
    if table.len() > 0 {
        lemma_lookup_absent(table.drop_last(), key);
    }
}

proof fn lemma_schema_index(schema: Seq<SchemaKey>, j: int)
    requires
        0 <= j < schema.len(),
        forall|a: int, b: int| 0 <= a < b < schema.len() ==> schema[a].key@ != schema[b].key@,
    ensures
        schema_entry(schema, schema[j].key@) == Some(schema[j]),
    decreases schema.len(),
{
    if j < schema.len() - 1 {
        lemma_schema_index(schema.drop_last(), j);
    }
}

/// Where `key` is declared in `schema`.
fn schema_index(schema: &[SchemaKey], key: &str) -> (r: Option<usize>)
    ensures
        r matches Some(j) ==> j < schema@.len() && schema@[j as int].key@ == key@,
        r is None ==> forall|j: int| 0 <= j < schema@.len() ==> (#[trigger] schema@[j]).key@ != key@,
{
    let mut j: usize = 0;
    while j < schema.len()
        invariant
            0 <= j <= schema@.len(),
            forall|k: int| 0 <= k < j ==> (#[trigger] schema@[k]).key@ != key@,
        decreases schema@.len() - j,
    {
        if str_eq(schema[j].key.as_str(), key) {
            return Some(j);
        }
        j = j + 1;
    }
    None
}

/// Where `key` is stored in `table`.
fn table_index(table: &Vec<(String, String)>, key: &str) -> (r: Option<usize>)
    ensures
        r matches Some(i) ==> i < table@.len() && table@[i as int].0@ == key@,
        r is None ==> forall|i: int| 0 <= i < table@.len() ==> (#[trigger] table@[i]).0@ != key@,
{
    let mut i: usize = 0;
    while i < table.len()
        invariant
            0 <= i <= table@.len(),
            forall|k: int| 0 <= k < i ==> (#[trigger] table@[k]).0@ != key@,
        decreases table@.len() - i,
    {
        if str_eq(table[i].0.as_str(), key) {
            return Some(i);
        }
        i = i + 1;
    }
    None
}

proof fn lemma_schema_absent(schema: Seq<SchemaKey>, key: Seq<char>)
    requires
        forall|j: int| 0 <= j < schema.len() ==> (#[trigger] schema[j]).key@ != key,
    ensures
        schema_entry(schema, key) is None,
    decreases schema.len(),
{
    if schema.len() > 0 {
        lemma_schema_absent(schema.drop_last(), key);
    }
}

/// Brings a plugin's stored settings in line with its manifest schema:
/// keys the schema no longer declares are dropped, and a declared key
/// whose value is missing or out of bounds is reset to its default.
/// Returns whether anything changed.
pub fn reconcile_plugin_table(table: &mut Vec<(String, String)>, schema: &[SchemaKey]) -> (changed: bool)
    requires
        unique_table_keys(old(table)@),
        forall|a: int, b: int| 0 <= a < b < schema@.len() ==> schema@[a].key@ != schema@[b].key@,
        forall|j: int| 0 <= j < schema@.len() && (#[trigger] schema@[j]).stored_value_ok ==> lookup(
            old(table)@,
            schema@[j].key@,
        ) is Some,
    ensures
        unique_table_keys(final(table)@),
        forall|key: Seq<char>| #[trigger] lookup(final(table)@, key) == reconciled_value(old(table)@, schema@, key),
        changed == reconcile_changes(old(table)@, schema@),
{
    let ghost before = table@;
    let ghost sch = schema@;
    let mut out: Vec<(String, String)> = Vec::new();
    let mut reset = false;
    let mut j: usize = 0;
    while j < schema.len()
        invariant
            0 <= j <= sch.len(),
            sch == schema@,
            table@ == before,
            unique_table_keys(before),
            forall|a: int, b: int| 0 <= a < b < sch.len() ==> sch[a].key@ != sch[b].key@,
            forall|k: int| 0 <= k < sch.len() && (#[trigger] sch[k]).stored_value_ok ==> lookup(before, sch[k].key@) is Some,
            out@.len() == j,
            forall|k: int| 0 <= k < j ==> (#[trigger] out@[k]).0@ == sch[k].key@ && Some(out@[k].1@)
                == reconciled_value(before, sch, sch[k].key@),
            reset == exists|k: int| 0 <= k < j && !(#[trigger] sch[k]).stored_value_ok && lookup(before, sch[k].key@)
                != Some(sch[k].default@),
        decreases sch.len() - j,
    {
        let entry = &schema[j];
        proof {
            lemma_schema_index(sch, j as int);
        }
        let found = table_index(table, entry.key.as_str());
        proof {
            match found {
                Some(i) => lemma_lookup_index(before, i as int),
                None => lemma_lookup_absent(before, sch[j as int].key@),
            }
        }
        if entry.stored_value_ok {
            let i = match found {
                Some(i) => i,
                None => {
                    proof {
                        assert(lookup(before, sch[j as int].key@) is Some);
                    }
                    0
                },
            };
            out.push((entry.key.clone(), table[i].1.clone()));
        } else {
            let differs = match found {
                Some(i) => !str_eq(table[i].1.as_str(), entry.default.as_str()),
                None => true,
            };
            if differs {
                reset = true;
            }
            out.push((entry.key.clone(), entry.default.clone()));
        }
        j = j + 1;
    }
    proof {
        assert forall|a: int, b: int| 0 <= a < b < out@.len() implies out@[a].0@ != out@[b].0@ by {
            assert(out@[a].0@ == sch[a].key@ && out@[b].0@ == sch[b].key@);
        }
        assert forall|key: Seq<char>| #[trigger] lookup(out@, key) == reconciled_value(before, sch, key) by {
            if exists|k: int| 0 <= k < sch.len() && (#[trigger] sch[k]).key@ == key {
                let k = choose|k: int| 0 <= k < sch.len() && (#[trigger] sch[k]).key@ == key;
                assert(out@[k].0@ == key);
                lemma_lookup_index(out@, k);
            } else {
                assert forall|k: int| 0 <= k < out@.len() implies (#[trigger] out@[k]).0@ != key by {
                    assert(out@[k].0@ == sch[k].key@);
                }
                lemma_lookup_absent(out@, key);
                lemma_schema_absent(sch, key);
            }
        }
    }
    let mut stale = false;
    let mut i: usize = 0;
    while i < table.len()
        invariant
            0 <= i <= before.len(),
            table@ == before,
            sch == schema@,
            forall|a: int, b: int| 0 <= a < b < sch.len() ==> sch[a].key@ != sch[b].key@,
            stale == exists|m: int| 0 <= m < i && schema_entry(sch, (#[trigger] before[m]).0@) is None,
        decreases before.len() - i,
    {
        let declared = schema_index(schema, table[i].0.as_str());
        proof {
            match declared {
                Some(k) => lemma_schema_index(sch, k as int),
                None => lemma_schema_absent(sch, before[i as int].0@),
            }
        }
        if declared.is_none() {
            stale = true;
        }
        i = i + 1;
    }
    *table = out;
    stale || reset
}

} // verus!
