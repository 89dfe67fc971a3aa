//! What source plugins declare and return: entry versions, settings and
//! their validation, actions, status rows, discover capabilities, remote
//! subscription and QR sign-in exchanges, lifecycle checks and discover
//! results.

use vstd::prelude::*;
use std::collections::HashMap;
use crate::text::{chars_of, decimal, digits_value, owned, parse_digits, push_char, push_decimal,
    push_str, str_eq};

verus! {

pub const ENTRY_VERSION_V2: u32 = 2;

pub const ENTRY_VERSION_V3: u32 = 3;

pub const ENTRY_VERSION_V4: u32 = 4;

/// Entry version written by default.
pub const ENTRY_VERSION: u32 = 3;

pub const LATEST_ENTRY_VERSION: u32 = 4;

/// Whether a plugin written for `version` of the entry contract can load:
/// versions 3 and 4 are supported; version 2 no longer is.
pub fn supports_entry_version(version: u32) -> (r: bool)
    ensures
        r == (version == ENTRY_VERSION_V3 || version == ENTRY_VERSION_V4),
{
    let supported: [u32; 2] = [ENTRY_VERSION_V3, ENTRY_VERSION_V4];
    let mut i: usize = 0;
    while i < 2
        invariant
            0 <= i <= 2,
            supported@ == seq![ENTRY_VERSION_V3, ENTRY_VERSION_V4],
            forall|j: int| 0 <= j < i ==> supported@[j] != version,
        decreases 2 - i,
    {
        if supported[i] == version {
            return true;
        }
        i = i + 1;
    }
    false
}

/// Kinds of wallpaper a source can provide.
#[derive(Debug, Clone, Copy, PartialEq, Eq, Structural)]
pub enum WallpaperType {
    Image,
    Video,
    Scene,
    Web,
    Other,
}

/// What a loaded source plugin says about itself.
#[derive(Debug, Clone)]
pub struct SourcePluginInfo {
    pub name: String,
    /// Domain id of the owning installable plugin (empty without package
    /// metadata).
    pub plugin_id: String,
    pub types: Vec<WallpaperType>,
    pub version: String,
    pub library_label: String,
    pub library_hint: String,
    pub settings: Vec<SourceSetting>,
}

/// One user-configurable setting a source plugin declares.
#[derive(Debug, Clone)]
pub struct SourceSetting {
    pub key: String,
    /// "string", "bool", "u32", "i32" or "f32".
    pub ty: String,
    pub default: String,
    pub label: String,
    pub description: String,
    pub group: String,
    pub order: i32,
    pub choices: Vec<String>,
}

#[derive(Debug, Clone, Copy, PartialEq, Eq, Structural)]
pub enum SourceActionKind {
    Invoke,
    QrLogin,
    Form,
}

#[derive(Debug, Clone)]
pub struct SourceActionField {
    pub key: String,
    pub label: String,
    pub description: String,
    pub placeholder: String,
    pub secret: bool,
    pub required: bool,
}

/// A button a plugin declares.
#[derive(Debug, Clone)]
pub struct SourceAction {
    pub id: String,
    pub label: String,
    pub description: String,
    pub browse_description: String,
    pub browse_button_label: String,
    pub group: String,
    pub order: i32,
    pub kind: SourceActionKind,
    pub visible: bool,
    pub enabled: bool,
    pub fields: Vec<SourceActionField>,
    pub required_for_browsing: bool,
}

/// A read-only status row; the daemon fills `value`.
#[derive(Debug, Clone)]
pub struct SourceStatus {
    pub id: String,
    pub label: String,
    pub group: String,
    pub order: i32,
    pub value: String,
}

#[derive(Debug, Clone)]
pub struct DiscoverSort {
    pub key: String,
    pub label: String,
}

#[derive(Debug, Clone, Copy, PartialEq, Eq, Structural)]
pub enum DiscoverFilterType {
    Select,
    MultiSelect,
    Toggle,
}

#[derive(Debug, Clone, PartialEq, Eq)]
pub struct DiscoverFilter {
    pub id: String,
    pub title: String,
    pub ty: DiscoverFilterType,
    pub values: Vec<String>,
    pub description: String,
    pub confirmation: String,
}

#[derive(Debug, Clone, Copy, PartialEq, Eq, Structural)]
pub enum RemoteCapability {
    Download,
    Subscription,
}

/// The discover capability of one source plugin.
#[derive(Debug, Clone)]
pub struct DiscoverSourceInfo {
    pub plugin_id: String,
    pub name: String,
    pub display_name: String,
    pub supports_search: bool,
    pub remote_capability: Option<RemoteCapability>,
    pub remote_hint: String,
    pub sorts: Vec<DiscoverSort>,
    pub filters: Vec<DiscoverFilter>,
    pub owner_plugin_id: String,
    pub settings: Vec<SourceSetting>,
    pub actions: Vec<SourceAction>,
    pub status: Vec<SourceStatus>,
    pub avatar_url: String,
}

#[derive(Debug, Clone, Copy, PartialEq, Eq, Structural)]
pub enum SubscriptionState {
    Unknown,
    Unsubscribed,
    Subscribed,
}

#[derive(Debug, Clone, PartialEq, Eq)]
pub struct SubscriptionItemState {
    pub id: String,
    pub state: SubscriptionState,
}

/// A started QR sign-in.
#[derive(Debug, Clone, PartialEq, Eq)]
pub struct QrLoginBegin {
    pub operation_id: u64,
    pub challenge: String,
    pub poll_after_ms: u64,
    pub expires_in_ms: Option<u64>,
    pub title: String,
    pub instruction: String,
}

#[derive(Debug, Clone, Copy, PartialEq, Eq, Structural)]
pub enum QrLoginPollState {
    AwaitingScan,
    AwaitingConfirmation,
    ChallengeChanged,
    Succeeded,
    Expired,
    Failed,
}

/// One poll of a QR sign-in.
#[derive(Debug, Clone, PartialEq, Eq)]
pub struct QrLoginPoll {
    pub state: QrLoginPollState,
    pub challenge: String,
    pub poll_after_ms: Option<u64>,
    pub display_value: String,
    pub error: String,
}

#[derive(Debug, Clone, Copy, PartialEq, Eq, Structural)]
pub enum PluginLifecycleState {
    SignedOut,
    SignedIn,
    Expired,
    Error,
}

#[derive(Debug, Clone, PartialEq, Eq)]
pub struct PluginLifecycleCheck {
    pub state: PluginLifecycleState,
    pub display_value: String,
    pub error: String,
    pub avatar_url: String,
}

/// One remote item of a discover search.
#[derive(Debug, Clone)]
pub struct DiscoverItem {
    pub id: String,
    pub title: String,
    pub preview_url: String,
    pub author: String,
    pub wp_type: String,
    pub extra: HashMap<String, String>,
}

#[derive(Debug, Clone)]
pub struct DiscoverDetails {
    pub author: String,
    pub description: String,
    pub size: String,
    pub width: Option<u32>,
    pub height: Option<u32>,
    pub tags: Vec<String>,
    pub web_url: String,
    pub extra: HashMap<String, String>,
}

#[derive(Debug, Clone)]
pub struct DiscoverSearchResult {
    pub items: Vec<DiscoverItem>,
    pub has_more: bool,
}

#[derive(Debug, Clone)]
pub struct DiscoverDownload {
    pub wp_type: String,
    pub url: String,
    pub filename: String,
    pub title: String,
    pub preview_url: String,
    pub description: String,
    pub tags: Vec<String>,
    pub external_id: String,
    pub size: Option<i64>,
    pub width: Option<u32>,
    pub height: Option<u32>,
    pub content_rating: Option<String>,
}

/// A directory item resolved after a provider fetch (paths relative to the
/// fetched directory).
#[derive(Debug, Clone)]
pub struct DiscoverResolve {
    pub name: String,
    pub wp_type: String,
    pub resource: String,
    pub preview: Option<String>,
    pub description: String,
    pub tags: Vec<String>,
    pub external_id: String,
    pub size: Option<i64>,
    pub content_rating: Option<String>,
}

// ---------------------------------------------------------------------------
// Setting values

/// `u32::from_str`: an optional `+`, then decimal digits, at most `u32::MAX`.
pub open spec fn spec_parse_u32(s: Seq<char>) -> Option<nat> {
    let d = if s.len() > 0 && s[0] == '+' {
        s.skip(1)
    } else {
        s
    };
    if d.len() == 0 {
        None
    } else {
        match digits_value(d, 10) {
            Some(v) => if v <= u32::MAX {
                Some(v)
            } else {
                None
            },
            None => None,
        }
    }
}

/// `i32::from_str`: an optional sign, then decimal digits, in range.
pub open spec fn spec_parse_i32(s: Seq<char>) -> Option<int> {
    let negative = s.len() > 0 && s[0] == '-';
    let d = if s.len() > 0 && (s[0] == '+' || s[0] == '-') {
        s.skip(1)
    } else {
        s
    };
    if d.len() == 0 {
        None
    } else {
        match digits_value(d, 10) {
            Some(v) => if negative && v <= 2147483648 {
                Some(-v)
            } else if !negative && v <= i32::MAX {
                Some(v as int)
            } else {
                None
            },
            None => None,
        }
    }
}

/// Decimal rendering of a signed value.
pub open spec fn signed_decimal(v: int) -> Seq<char> {
    if v < 0 {
        seq!['-'] + decimal((-v) as nat)
    } else {
        decimal(v as nat)
    }
}

/// The choices separated by `", "`.
pub open spec fn joined(choices: Seq<Seq<char>>) -> Seq<char>
    decreases choices.len(),
{
    if choices.len() == 0 {
        Seq::empty()
    } else if choices.len() == 1 {
        choices[0]
    } else {
        joined(choices.drop_last()) + ", "@ + choices.last()
    }
}

pub open spec fn views(v: Seq<String>) -> Seq<Seq<char>> {
    v.map_values(|s: String| s@)
}

/// The canonical value of `raw` for the setting's type, or the error text;
/// `f32` is the canonical text of an `f32` parse of `raw`, if it parsed.
pub open spec fn spec_setting_value(
    key: Seq<char>,
    ty: Seq<char>,
    raw: Seq<char>,
    f32_text: Option<Seq<char>>,
) -> Result<Seq<char>, Seq<char>> {
    let expects = key + " expects "@ + ty + ", got '"@ + raw + "'"@;
    if ty == "u32"@ {
        match spec_parse_u32(raw) {
            Some(v) => Ok(decimal(v)),
            None => Err(expects),
        }
    } else if ty == "i32"@ {
        match spec_parse_i32(raw) {
            Some(v) => Ok(signed_decimal(v)),
            None => Err(expects),
        }
    } else if ty == "f32"@ {
        match f32_text {
            Some(t) => Ok(t),
            None => Err(expects),
        }
    } else if ty == "bool"@ {
        if raw == "true"@ || raw == "false"@ {
            Ok(raw)
        } else {
            Err(expects)
        }
    } else if ty == "string"@ {
        Ok(raw)
    } else {
        Err(key + ".type '"@ + ty + "' is unsupported"@)
    }
}

/// The value a setting takes from `raw`: canonical for its type and, when
/// the setting lists choices, one of them.
pub open spec fn spec_validate_setting(
    key: Seq<char>,
    ty: Seq<char>,
    choices: Seq<Seq<char>>,
    raw: Seq<char>,
    f32_text: Option<Seq<char>>,
) -> Result<Seq<char>, Seq<char>> {
    match spec_setting_value(key, ty, raw, f32_text) {
        Err(e) => Err(e),
        Ok(value) => if choices.len() > 0 && !choices.contains(value) {
            Err(key + " value '"@ + value + "' is not one of ["@ + joined(choices) + "]"@)
        } else {
            Ok(value)
        },
    }
}

fn parse_u32_text(raw: &[char]) -> (r: Option<u32>)
    ensures
        match spec_parse_u32(raw@) {
            Some(v) => r == Some(v as u32),
            None => r is None,
        },
{
    let from: usize = if raw.len() > 0 && raw[0] == '+' {
        1
    } else {
        0
    };
    let digits = crate::text::copy_range(raw, from, raw.len());
    proof {
        assert(digits@ =~= (if raw@.len() > 0 && raw@[0] == '+' {
            raw@.skip(1)
        } else {
            raw@
        }));
    }
    match parse_digits(digits.as_slice(), 10, 4294967295) {
        Some(v) => Some(v as u32),
        None => None,
    }
}

fn parse_i32_text(raw: &[char]) -> (r: Option<i32>)
    ensures
        match spec_parse_i32(raw@) {
            Some(v) => r == Some(v as i32),
            None => r is None,
        },
{
    let negative = raw.len() > 0 && raw[0] == '-';
    let from: usize = if raw.len() > 0 && (raw[0] == '+' || raw[0] == '-') {
        1
    } else {
        0
    };
    let digits = crate::text::copy_range(raw, from, raw.len());
    proof {
        assert(digits@ =~= (if raw@.len() > 0 && (raw@[0] == '+' || raw@[0] == '-') {
            raw@.skip(1)
        } else {
            raw@
        }));
    }
    if negative {
        match parse_digits(digits.as_slice(), 10, 2147483648) {
            Some(v) => Some((0 - (v as i64)) as i32),
            None => None,
        }
    } else {
        match parse_digits(digits.as_slice(), 10, 2147483647) {
            Some(v) => Some(v as i32),
            None => None,
        }
    }
}

fn push_signed(out: &mut String, v: i32)
    ensures
        final(out)@ == old(out)@ + signed_decimal(v as int),
{
    if v < 0 {
        push_char(out, '-');
        let magnitude: u64 = (0 - (v as i64)) as u64;
        push_decimal(out, magnitude);
        assert(old(out)@.push('-') + decimal(magnitude as nat) =~= old(out)@ + (seq!['-']
            + decimal(magnitude as nat)));
    } else {
        push_decimal(out, v as u64);
    }
}

fn push_joined(out: &mut String, choices: &Vec<String>)
    ensures
        final(out)@ == old(out)@ + joined(views(choices@)),
{
    let ghost start = out@;
    let mut i: usize = 0;
    proof {
        assert(views(choices@.take(0)) =~= Seq::<Seq<char>>::empty());
    }
    while i < choices.len()
        invariant
            0 <= i <= choices@.len(),
            out@ == start + joined(views(choices@.take(i as int))),
        decreases choices@.len() - i,
    {
        proof {
            assert(views(choices@.take(i + 1)).drop_last() =~= views(choices@.take(i as int)));
            assert(views(choices@.take(i + 1)).last() == choices@[i as int]@);
        }
        if i > 0 {
            push_str(out, ", ");
        } else {
            assert(joined(views(choices@.take(0))) =~= Seq::<char>::empty());
        }
        push_str(out, choices[i].as_str());
        i = i + 1;
    }
    proof {
        assert(choices@.take(choices@.len() as int) =~= choices@);
    }
}

fn expects_error(setting: &SourceSetting, raw: &str) -> (r: String)
    ensures
        r@ == setting.key@ + " expects "@ + setting.ty@ + ", got '"@ + raw@ + "'"@,
{
    let mut e = setting.key.clone();
    push_str(&mut e, " expects ");
    push_str(&mut e, setting.ty.as_str());
    push_str(&mut e, ", got '");
    push_str(&mut e, raw);
    push_str(&mut e, "'");
    e
}

/// Checks a value for a declared setting and returns its canonical text.
/// `f32_text` is the canonical text of `raw` parsed as an `f32`, if it
/// parses; only `f32` settings use it.
pub fn validate_source_setting(setting: &SourceSetting, raw: &str, f32_text: Option<String>) -> (r:
    Result<String, String>)
    ensures
        match spec_validate_setting(
            setting.key@,
            setting.ty@,
            views(setting.choices@),
            raw@,
            match f32_text {
                Some(t) => Some(t@),
                None => None,
            },
        ) {
            Ok(v) => r matches Ok(s) && s@ == v,
            Err(e) => r matches Err(s) && s@ == e,
        },
{
    let ty = setting.ty.as_str();
    let chars = chars_of(raw);
    let value: String = if str_eq(ty, "u32") {
        match parse_u32_text(chars.as_slice()) {
            Some(v) => {
                let mut s = String::new();
                push_decimal(&mut s, v as u64);
                s
            },
            None => {
                return Err(expects_error(setting, raw));
            },
        }
    } else if str_eq(ty, "i32") {
        match parse_i32_text(chars.as_slice()) {
            Some(v) => {
                let mut s = String::new();
                push_signed(&mut s, v);
                s
            },
            None => {
                return Err(expects_error(setting, raw));
            },
        }
    } else if str_eq(ty, "f32") {
        match f32_text {
            Some(t) => t,
            None => {
                return Err(expects_error(setting, raw));
            },
        }
    } else if str_eq(ty, "bool") {
        if str_eq(raw, "true") || str_eq(raw, "false") {
            owned(raw)
        } else {
            return Err(expects_error(setting, raw));
        }
    } else if str_eq(ty, "string") {
        owned(raw)
    } else {
        let mut e = setting.key.clone();
        push_str(&mut e, ".type '");
        push_str(&mut e, ty);
        push_str(&mut e, "' is unsupported");
        return Err(e);
    };
    if setting.choices.len() > 0 {
        let mut found = false;
        let mut i: usize = 0;
        while i < setting.choices.len()
            invariant
                0 <= i <= setting.choices@.len(),
                found <==> exists|j: int| 0 <= j < i && views(setting.choices@)[j] == value@,
            decreases setting.choices@.len() - i,
        {
            proof {
                assert(views(setting.choices@)[i as int] == setting.choices@[i as int]@);
            }
            if str_eq(setting.choices[i].as_str(), value.as_str()) {
                found = true;
            }
            i = i + 1;
        }
        if !found {
            proof {
                assert forall|j: int| 0 <= j < views(setting.choices@).len() implies views(
                    setting.choices@,
                )[j] != value@ by {}
            }
            let mut e = setting.key.clone();
            push_str(&mut e, " value '");
            push_str(&mut e, value.as_str());
            push_str(&mut e, "' is not one of [");
            push_joined(&mut e, &setting.choices);
            push_str(&mut e, "]");
            return Err(e);
        }
        proof {
            let j = choose|j: int| 0 <= j < i && views(setting.choices@)[j] == value@;
            assert(views(setting.choices@).contains(value@));
        }
    }
    Ok(value)
}

/// A Lua module name usable for an import: dot-separated parts, none of
/// them empty, and no path separator anywhere.
pub open spec fn valid_import_name(name: Seq<char>) -> bool {
    &&& name.len() > 0
    &&& name[0] != '.'
    &&& name.last() != '.'
    &&& forall|i: int| 0 <= i < name.len() - 1 ==> !(#[trigger] name[i] == '.' && name[i + 1] == '.')
    &&& forall|i: int| 0 <= i < name.len() ==> name[i] != '/' && name[i] != '\\'
}

/// The module's path below the plugin root: its parts joined by `/`.
pub open spec fn import_rel_path(name: Seq<char>) -> Seq<char> {
    name.map_values(|c: char| if c == '.' { '/' } else { c })
}

/// Where `require(name)` looks inside a plugin rooted at `root`, in order:
/// `<root>/<parts>.lua`, then `<root>/<parts>/init.lua`; an invalid name is
/// refused.
pub fn plugin_import_candidates(root: &str, name: &str) -> (r: Result<(String, String), String>)
    ensures
        valid_import_name(name@) ==> (r matches Ok((a, b)) && a@ == crate::paths::spec_join(root@, import_rel_path(name@)) + ".lua"@
            && b@ == crate::paths::spec_join(crate::paths::spec_join(root@, import_rel_path(name@)), "init.lua"@)),
        !valid_import_name(name@) ==> (r matches Err(m) && m@ == "invalid import module name: "@ + name@),
{
    let chars = chars_of(name);
    let n = chars.len();
    let mut ok = n > 0 && chars[0] != '.' && chars[n - 1] != '.';
    let mut rel = String::new();
    let mut i: usize = 0;
    while i < n
        invariant
            n == chars@.len(),
            chars@ == name@,
            0 <= i <= n,
            rel@ == import_rel_path(name@.take(i as int)),
            ok ==> (forall|k: int| 0 <= k < i && k < n - 1 ==> !(#[trigger] name@[k] == '.' && name@[k + 1] == '.')),
            ok ==> (forall|k: int| 0 <= k < i ==> name@[k] != '/' && name@[k] != '\\'),
            ok ==> n > 0 && name@[0] != '.' && name@.last() != '.',
            !ok ==> !valid_import_name(name@),
        decreases n - i,
    {
        let c = chars[i];
        if c == '/' || c == '\\' || (c == '.' && i + 1 < n && chars[i + 1] == '.') {
            ok = false;
        }
        crate::text::push_char(&mut rel, if c == '.' { '/' } else { c });
        proof {
            assert(import_rel_path(name@.take(i + 1)) =~= import_rel_path(name@.take(i as int)).push(
                if c == '.' { '/' } else { c },
            ));
        }
        i = i + 1;
    }
    proof {
        assert(name@.take(n as int) =~= name@);
        if !(n > 0 && name@[0] != '.' && name@.last() != '.') {
            assert(!valid_import_name(name@));
        }
    }
    if !ok {
        let mut m = owned("invalid import module name: ");
        crate::text::push_str(&mut m, name);
        return Err(m);
    }
    let base = crate::paths::join(root, rel.as_str());
    let mut module_file = base.clone();
    crate::text::push_str(&mut module_file, ".lua");
    let package_file = crate::paths::join(base.as_str(), "init.lua");
    Ok((module_file, package_file))
}

} // verus!
