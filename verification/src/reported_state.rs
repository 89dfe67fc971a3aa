//! State a renderer reports about itself (clear colour, runtime tags),
//! applied as field-masked patches, with the checks on runtime tags.

use vstd::prelude::*;
use crate::text::{byte_length, byte_length_of, chars_of, debug_escaped, debug_quote, decimal, hex, owned, push_decimal, push_hex, push_str, str_eq};

verus! {

/// Patch field: the clear colour.
pub const RENDERER_STATE_FIELD_CLEAR_COLOR: u32 = 1;

/// Patch field: the runtime tags.
pub const RENDERER_STATE_FIELD_RUNTIME_TAGS: u32 = 2;

/// Every patch field there is.
pub const RENDERER_STATE_KNOWN_FIELDS: u32 = 3;

/// One `key = value` tag a renderer attaches to itself.
#[derive(Debug, Clone, PartialEq, Eq)]
pub struct RendererRuntimeTag {
    pub key: String,
    pub value: String,
}

/// Bounds on runtime tags.
#[derive(Debug, Clone, Copy, PartialEq, Eq)]
pub struct RuntimeTagLimits {
    pub max_tags: usize,
    pub max_key_bytes: usize,
    pub max_value_bytes: usize,
}

/// What a renderer has reported: its clear colour (RGBA, `f32` bit
/// patterns, finite and within `0..=1`) and its runtime tags.
#[derive(Debug, Clone, PartialEq, Eq)]
pub struct RendererReportedState {
    pub clear_rgba: [u32; 4],
    pub runtime_tags: Vec<RendererRuntimeTag>,
}

pub open spec fn key_rest_char(c: char) -> bool {
    ('a' <= c <= 'z') || ('0' <= c <= '9') || c == '.' || c == '_' || c == '-'
}

/// A tag key: a lowercase ASCII letter, then lowercase letters, digits,
/// `.`, `_` or `-`, at most `max_bytes` long. (All of these characters
/// are ASCII, so characters and bytes count alike.)
pub open spec fn runtime_tag_key_valid(key: Seq<char>, max_bytes: usize) -> bool {
    &&& 1 <= key.len() <= max_bytes
    &&& 'a' <= key[0] <= 'z'
    &&& forall|i: int| 1 <= i < key.len() ==> key_rest_char(#[trigger] key[i])
}

/// A Unicode control character (general category `Cc`), as
/// `char::is_control` has it.
pub open spec fn is_control(c: char) -> bool {
    (c as u32) < 0x20 || (0x7f <= (c as u32) && (c as u32) < 0xa0)
}

/// A tag value: not empty, at most `max_bytes` UTF-8 bytes, no control
/// character.
pub open spec fn runtime_tag_value_valid(value: Seq<char>, max_bytes: usize) -> bool {
    &&& value.len() > 0
    &&& byte_length(value) <= max_bytes
    &&& forall|i: int| 0 <= i < value.len() ==> !is_control(#[trigger] value[i])
}

pub fn key_is_valid(key: &str, max_bytes: usize) -> (r: bool)
    ensures
        r == runtime_tag_key_valid(key@, max_bytes),
{
    let chars = chars_of(key);
    if chars.len() == 0 || chars.len() > max_bytes {
        return false;
    }
    let first = chars[0];
    if !('a' <= first && first <= 'z') {
        return false;
    }
    let mut i: usize = 1;
    while i < chars.len()
        invariant
            1 <= i <= chars@.len(),
            chars@ == key@,
            forall|k: int| 1 <= k < i ==> key_rest_char(#[trigger] chars@[k]),
        decreases chars@.len() - i,
    {
        let c = chars[i];
        if !(('a' <= c && c <= 'z') || ('0' <= c && c <= '9') || c == '.' || c == '_' || c == '-') {
            return false;
        }
        i = i + 1;
    }
    true
}

pub fn value_is_valid(value: &str, max_bytes: usize) -> (r: bool)
    ensures
        r == runtime_tag_value_valid(value@, max_bytes),
{
    let chars = chars_of(value);
    if chars.len() == 0 || byte_length_of(value) > max_bytes {
        return false;
    }
    let mut i: usize = 0;
    while i < chars.len()
        invariant
            0 <= i <= chars@.len(),
            chars@ == value@,
            forall|k: int| 0 <= k < i ==> !is_control(#[trigger] chars@[k]),
        decreases chars@.len() - i,
    {
        let c = chars[i];
        let code = c as u32;
        if code < 0x20 || (0x7f <= code && code < 0xa0) {
            return false;
        }
        i = i + 1;
    }
    true
}

/// Where validating `tags` first goes wrong, if anywhere: too many tags;
/// else the first tag (in order) with a bad key, a bad value, or a key an
/// earlier tag already has.
pub open spec fn first_tag_error(tags: Seq<(String, String)>, limits: RuntimeTagLimits) -> Option<Seq<char>> {
    if tags.len() > limits.max_tags {
        Some(
            "runtime_tags contains "@ + decimal(tags.len()) + " entries; maximum is "@ + decimal(
                limits.max_tags as nat,
            ),
        )
    } else {
        tag_error_from(tags, limits, tags.len())
    }
}

/// The first error among the first `n` tags.
pub open spec fn tag_error_from(tags: Seq<(String, String)>, limits: RuntimeTagLimits, n: nat) -> Option<Seq<char>>
    decreases n,
{
    if n == 0 {
        None
    } else {
        match tag_error_from(tags, limits, (n - 1) as nat) {
            Some(e) => Some(e),
            None => tag_error_at(tags, limits, n - 1),
        }
    }
}

/// What is wrong with tag `i` given the tags before it.
pub open spec fn tag_error_at(tags: Seq<(String, String)>, limits: RuntimeTagLimits, i: int) -> Option<Seq<char>> {
    let key = tags[i].0@;
    let value = tags[i].1@;
    if !runtime_tag_key_valid(key, limits.max_key_bytes) {
        Some("runtime_tags["@ + decimal(i as nat) + "] has invalid key "@ + debug_escaped(key))
    } else if !runtime_tag_value_valid(value, limits.max_value_bytes) {
        Some("runtime_tags["@ + decimal(i as nat) + "] has an invalid value for key "@ + debug_escaped(key))
    } else if exists|j: int| 0 <= j < i && #[trigger] tags[j].0@ == key {
        Some("runtime_tags contains duplicate key "@ + debug_escaped(key))
    } else {
        None
    }
}

/// Checks a renderer's runtime tags and returns them as tags, in order.
pub fn validate_runtime_tags(tags: &[(String, String)], limits: RuntimeTagLimits) -> (r: Result<Vec<RendererRuntimeTag>, String>)
    ensures
        match first_tag_error(tags@, limits) {
            Some(e) => (r matches Err(m) && m@ == e),
            None => (r matches Ok(v) && v@.len() == tags@.len() && forall|i: int|
                0 <= i < tags@.len() ==> (#[trigger] v@[i]).key@ == tags@[i].0@ && v@[i].value@ == tags@[i].1@),
        },
{
    if tags.len() > limits.max_tags {
        let mut m = owned("runtime_tags contains ");
        push_decimal(&mut m, tags.len() as u64);
        push_str(&mut m, " entries; maximum is ");
        push_decimal(&mut m, limits.max_tags as u64);
        return Err(m);
    }
    let mut validated: Vec<RendererRuntimeTag> = Vec::new();
    let mut index: usize = 0;
    while index < tags.len()
        invariant
            0 <= index <= tags@.len(),
            tags@.len() <= limits.max_tags,
            tag_error_from(tags@, limits, index as nat) is None,
            validated@.len() == index,
            forall|i: int| 0 <= i < index ==> (#[trigger] validated@[i]).key@ == tags@[i].0@
                && validated@[i].value@ == tags@[i].1@,
        decreases tags@.len() - index,
    {
        let key = &tags[index].0;
        let value = &tags[index].1;
        if !key_is_valid(key.as_str(), limits.max_key_bytes) {
            let mut m = owned("runtime_tags[");
            push_decimal(&mut m, index as u64);
            push_str(&mut m, "] has invalid key ");
            let q = debug_quote(key.as_str());
            push_str(&mut m, q.as_str());
            proof {
                lemma_tag_error_stops(tags@, limits, index as nat, tags@.len());
            }
            return Err(m);
        }
        if !value_is_valid(value.as_str(), limits.max_value_bytes) {
            let mut m = owned("runtime_tags[");
            push_decimal(&mut m, index as u64);
            push_str(&mut m, "] has an invalid value for key ");
            let q = debug_quote(key.as_str());
            push_str(&mut m, q.as_str());
            proof {
                lemma_tag_error_stops(tags@, limits, index as nat, tags@.len());
            }
            return Err(m);
        }
        let mut j: usize = 0;
        while j < index
            invariant
                0 <= j <= index < tags@.len(),
                key@ == tags@[index as int].0@,
                tags@.len() <= limits.max_tags,
                tag_error_from(tags@, limits, index as nat) is None,
                runtime_tag_key_valid(tags@[index as int].0@, limits.max_key_bytes),
                runtime_tag_value_valid(tags@[index as int].1@, limits.max_value_bytes),
                validated@.len() == index,
                forall|i: int| 0 <= i < index ==> (#[trigger] validated@[i]).key@ == tags@[i].0@,
                forall|k: int| 0 <= k < j ==> tags@[k].0@ != tags@[index as int].0@,
            decreases index - j,
        {
            if str_eq(validated[j].key.as_str(), key.as_str()) {
                let mut m = owned("runtime_tags contains duplicate key ");
                let q = debug_quote(key.as_str());
                push_str(&mut m, q.as_str());
                proof {
                    assert(tags@[j as int].0@ == tags@[index as int].0@);
                    lemma_tag_error_stops(tags@, limits, index as nat, tags@.len());
                }
                return Err(m);
            }
            j = j + 1;
        }
        validated.push(RendererRuntimeTag { key: key.clone(), value: value.clone() });
        index = index + 1;
    }
    Ok(validated)
}

/// Once the first `n` tags are fine and tag `n` is not, the first error
/// over all tags is tag `n`'s.
proof fn lemma_tag_error_stops(tags: Seq<(String, String)>, limits: RuntimeTagLimits, n: nat, m: nat)
    requires
        n < m <= tags.len(),
        tag_error_from(tags, limits, n) is None,
        tag_error_at(tags, limits, n as int) is Some,
    ensures
        tag_error_from(tags, limits, m) == tag_error_at(tags, limits, n as int),
    decreases m,
{
    if m > n + 1 {
        lemma_tag_error_stops(tags, limits, n, (m - 1) as nat);
    }
}

/// Two tag lists with the same keys and values in the same order.
pub open spec fn same_tags(a: Seq<RendererRuntimeTag>, b: Seq<RendererRuntimeTag>) -> bool {
    &&& a.len() == b.len()
    &&& forall|i: int| 0 <= i < a.len() ==> (#[trigger] a[i]).key@ == b[i].key@ && a[i].value@ == b[i].value@
}

fn tags_equal(a: &Vec<RendererRuntimeTag>, b: &Vec<RendererRuntimeTag>) -> (r: bool)
    ensures
        r == same_tags(a@, b@),
{
    if a.len() != b.len() {
        return false;
    }
    let mut i: usize = 0;
    while i < a.len()
        invariant
            0 <= i <= a@.len(),
            a@.len() == b@.len(),
            forall|k: int| 0 <= k < i ==> (#[trigger] a@[k]).key@ == b@[k].key@ && a@[k].value@ == b@[k].value@,
        decreases a@.len() - i,
    {
        if !str_eq(a[i].key.as_str(), b[i].key.as_str()) || !str_eq(a[i].value.as_str(), b[i].value.as_str()) {
            return false;
        }
        i = i + 1;
    }
    true
}

fn rgba_equal(a: &[u32; 4], b: &[u32; 4]) -> (r: bool)
    ensures
        r == (a@ == b@),
{
    let r = a[0] == b[0] && a[1] == b[1] && a[2] == b[2] && a[3] == b[3];
    proof {
        if r {
            assert(a@ =~= b@);
        }
    }
    r
}

/// The refusal of a patch's field mask, if any.
pub open spec fn fields_error(fields: u32) -> Option<Seq<char>> {
    if fields == 0 {
        Some("fields is empty"@)
    } else if fields & !RENDERER_STATE_KNOWN_FIELDS != 0 {
        Some("fields contains unknown bits 0x"@ + hex((fields & !RENDERER_STATE_KNOWN_FIELDS) as nat))
    } else {
        None
    }
}

/// Applies a state patch. `fields` says which parts it carries;
/// `clear_rgba` is the patch's clear colour, already checked finite and
/// clamped to `0..=1` (or the refusal of a non-finite one), and is looked
/// at only when the colour field is set; `runtime_tags` likewise. Either
/// the whole patch applies, and the changed fields come back, or nothing
/// changes.
pub fn apply_renderer_state_patch(
    current: &mut RendererReportedState,
    fields: u32,
    clear_rgba: Result<[u32; 4], String>,
    runtime_tags: &[(String, String)],
    limits: RuntimeTagLimits,
) -> (r: Result<u32, String>)
    ensures
        fields_error(fields) matches Some(e) ==> (r matches Err(m) && m@ == e) && *final(current) == *old(current),
        fields_error(fields) is None && fields & RENDERER_STATE_FIELD_CLEAR_COLOR != 0 && clear_rgba is Err
            ==> (match clear_rgba {
                Err(e) => r == Err::<u32, String>(e),
                Ok(_) => true,
            }) && *final(current) == *old(current),
        fields_error(fields) is None && (fields & RENDERER_STATE_FIELD_CLEAR_COLOR == 0 || clear_rgba is Ok)
            && fields & RENDERER_STATE_FIELD_RUNTIME_TAGS != 0 && first_tag_error(runtime_tags@, limits) is Some
            ==> (r matches Err(m) && Some(m@) == first_tag_error(runtime_tags@, limits)) && *final(current) == *old(current),
        r matches Ok(changed) ==> {
            let clear_set = fields & RENDERER_STATE_FIELD_CLEAR_COLOR != 0;
            let tags_set = fields & RENDERER_STATE_FIELD_RUNTIME_TAGS != 0;
            &&& fields_error(fields) is None
            &&& final(current).clear_rgba == if clear_set { clear_rgba.unwrap() } else { old(current).clear_rgba }
            &&& if tags_set {
                &&& first_tag_error(runtime_tags@, limits) is None
                &&& final(current).runtime_tags@.len() == runtime_tags@.len()
                &&& forall|i: int| 0 <= i < runtime_tags@.len() ==> (#[trigger] final(current).runtime_tags@[i]).key@
                    == runtime_tags@[i].0@ && final(current).runtime_tags@[i].value@ == runtime_tags@[i].1@
            } else {
                final(current).runtime_tags == old(current).runtime_tags
            }
            &&& changed == (if final(current).clear_rgba@ != old(current).clear_rgba@ {
                RENDERER_STATE_FIELD_CLEAR_COLOR
            } else {
                0u32
            }) + (if !same_tags(final(current).runtime_tags@, old(current).runtime_tags@) {
                RENDERER_STATE_FIELD_RUNTIME_TAGS
            } else {
                0u32
            })
        },
        fields_error(fields) is None && (fields & RENDERER_STATE_FIELD_CLEAR_COLOR == 0 || clear_rgba is Ok)
            && (fields & RENDERER_STATE_FIELD_RUNTIME_TAGS == 0 || first_tag_error(runtime_tags@, limits) is None)
            ==> r is Ok,
{
    if fields == 0 {
        return Err(owned("fields is empty"));
    }
    let unknown = fields & !RENDERER_STATE_KNOWN_FIELDS;
    if unknown != 0 {
        let mut m = owned("fields contains unknown bits 0x");
        push_hex(&mut m, unknown as u64);
        return Err(m);
    }
    let mut next_clear = current.clear_rgba;
    if fields & RENDERER_STATE_FIELD_CLEAR_COLOR != 0 {
        match clear_rgba {
            Ok(c) => next_clear = c,
            Err(e) => return Err(e),
        }
    }
    let mut next_tags: Option<Vec<RendererRuntimeTag>> = None;
    if fields & RENDERER_STATE_FIELD_RUNTIME_TAGS != 0 {
        match validate_runtime_tags(runtime_tags, limits) {
            Ok(v) => next_tags = Some(v),
            Err(e) => return Err(e),
        }
    }
    // The two field bits are disjoint, so adding them sets them.
    let mut changed: u32 = 0;
    if !rgba_equal(&next_clear, &current.clear_rgba) {
        changed = changed + RENDERER_STATE_FIELD_CLEAR_COLOR;
    }
    current.clear_rgba = next_clear;
    match next_tags {
        Some(v) => {
            if !tags_equal(&v, &current.runtime_tags) {
                changed = changed + RENDERER_STATE_FIELD_RUNTIME_TAGS;
            }
            current.runtime_tags = v;
        },
        None => {},
    }
    Ok(changed)
}

} // verus!
