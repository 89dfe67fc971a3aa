//! Checks on user plugins: the directory name a plugin id may take, and
//! what an installed or archived plugin's manifest says about it.
//!
//! Reading archives and manifests is the caller's; it hands over the
//! manifest fields it parsed.

use vstd::prelude::*;
use crate::source_types::supports_entry_version;
use crate::text::{chars_of, chars_order, compare_chars, decimal, lemma_chars_order, lemma_chars_order_trans, owned, push_decimal, push_str};

verus! {

broadcast use {vstd::seq_lib::to_multiset_insert, vstd::seq_lib::to_multiset_build};

/// What an installed or archived plugin declares.
#[derive(Debug, Clone)]
pub struct PluginArchiveInfo {
    pub id: String,
    pub name: String,
    pub version: String,
    pub update: Option<String>,
    pub has_source: bool,
    pub renderers: Vec<String>,
}

/// The fields of a `plugin.toml` the checks read.
#[derive(Debug, Clone)]
pub struct PluginManifestFields {
    pub id: String,
    pub name: String,
    pub version: String,
    pub update: Option<String>,
    /// The source entry script, for plugins that provide a source.
    pub entry: Option<String>,
    pub entry_version: Option<u32>,
    /// The names of the renderers the plugin declares.
    pub renderer_names: Vec<String>,
}

/// Why a plugin could not be installed, inspected or deleted.
#[derive(Debug, Clone, PartialEq, Eq)]
pub enum PluginFileError {
    InstallFailed(String),
    DeleteFailed(String),
}

/// A plugin id usable as one directory name: not empty, no path
/// separator, and not `.` or `..`.
pub open spec fn is_plugin_dir_name(id: Seq<char>) -> bool {
    &&& id.len() > 0
    &&& !id.contains('/')
    &&& !id.contains('\\')
    &&& id != seq!['.']
    &&& id != seq!['.', '.']
}

pub open spec fn unsafe_id_message(id: Seq<char>) -> Seq<char> {
    "unsafe plugin id '"@ + id + "'"@
}

/// Accepts a plugin id only as a single plain directory name.
pub fn validate_plugin_dir_name(id: &str) -> (r: Result<(), PluginFileError>)
    ensures
        r is Ok <==> is_plugin_dir_name(id@),
        id@.len() == 0 ==> (r matches Err(PluginFileError::InstallFailed(m)) && m@ == "plugin id is empty"@),
        id@.len() > 0 && !is_plugin_dir_name(id@) ==> (r matches Err(PluginFileError::InstallFailed(m)) && m@
            == unsafe_id_message(id@)),
{
    let chars = chars_of(id);
    if chars.len() == 0 {
        return Err(PluginFileError::InstallFailed(owned("plugin id is empty")));
    }
    let mut i: usize = 0;
    let mut separator = false;
    while i < chars.len()
        invariant
            0 <= i <= chars@.len(),
            chars@ == id@,
            separator <==> exists|k: int| 0 <= k < i && (chars@[k] == '/' || chars@[k] == '\\'),
        decreases chars@.len() - i,
    {
        if chars[i] == '/' || chars[i] == '\\' {
            separator = true;
        }
        i = i + 1;
    }
    let dots = (chars.len() == 1 && chars[0] == '.') || (chars.len() == 2 && chars[0] == '.' && chars[1] == '.');
    proof {
        if id@.contains('/') {
            let k = choose|k: int| 0 <= k < id@.len() && id@[k] == '/';
            assert(chars@[k] == '/');
        }
        if id@.contains('\\') {
            let k = choose|k: int| 0 <= k < id@.len() && id@[k] == '\\';
            assert(chars@[k] == '\\');
        }
        if separator {
            let k = choose|k: int| 0 <= k < i && (chars@[k] == '/' || chars@[k] == '\\');
            assert(id@.contains(chars@[k]));
        }
        if dots {
            if chars.len() == 1 {
                assert(id@ =~= seq!['.']);
            } else {
                assert(id@ =~= seq!['.', '.']);
            }
        }
    }
    if separator || dots {
        let mut m = owned("unsafe plugin id '");
        push_str(&mut m, id);
        push_str(&mut m, "'");
        return Err(PluginFileError::InstallFailed(m));
    }
    Ok(())
}

pub open spec fn unsupported_entry_message(version: u32) -> Seq<char> {
    "entry_version "@ + decimal(version as nat) + " is unsupported; supported versions are [3, 4]"@
}

/// A plugin with a source entry must say which entry contract version it
/// was written for, and that version must be one this daemon loads.
pub fn check_entry_version(has_entry: bool, entry_version: Option<u32>) -> (r: Result<(), String>)
    ensures
        !has_entry ==> r is Ok,
        has_entry && entry_version is None ==> (r matches Err(m) && m@
            == "plugin.entry requires plugin.entry_version"@),
        has_entry ==> (entry_version matches Some(v) ==> if v == 3 || v == 4 {
            r is Ok
        } else {
            (r matches Err(m) && m@ == unsupported_entry_message(v))
        }),
{
    if !has_entry {
        return Ok(());
    }
    match entry_version {
        None => Err(owned("plugin.entry requires plugin.entry_version")),
        Some(version) => {
            if supports_entry_version(version) {
                Ok(())
            } else {
                let mut m = owned("entry_version ");
                push_decimal(&mut m, version as u64);
                push_str(&mut m, " is unsupported; supported versions are [3, 4]");
                Err(m)
            }
        },
    }
}

/// Every string before every later one in code-point order.
pub open spec fn strings_sorted(s: Seq<String>) -> bool {
    forall|i: int, j: int| 0 <= i < j < s.len() ==> chars_order((#[trigger] s[i])@, (#[trigger] s[j])@) <= 0
}

pub open spec fn string_views(s: Seq<String>) -> Seq<Seq<char>> {
    s.map_values(|x: String| x@)
}

/// The strings in code-point order.
pub fn sort_strings(v: Vec<String>) -> (r: Vec<String>)
    ensures
        strings_sorted(r@),
        string_views(r@).to_multiset() == string_views(v@).to_multiset(),
{
    let ghost all = v@;
    let mut rest = v;
    let mut out: Vec<String> = Vec::new();
    let ghost mut taken: int = 0;
    proof {
        assert(string_views(all.take(0)) =~= Seq::<Seq<char>>::empty());
        assert(string_views(out@) =~= Seq::<Seq<char>>::empty());
    }
    while rest.len() > 0
        invariant
            0 <= taken <= all.len(),
            rest@ == all.skip(taken),
            strings_sorted(out@),
            string_views(out@).to_multiset() == string_views(all.take(taken)).to_multiset(),
        decreases rest@.len(),
    {
        let s = rest.remove(0);
        proof {
            assert(s == all[taken]);
        }
        let sc = chars_of(s.as_str());
        let mut j: usize = 0;
        let mut stop = false;
        while j < out.len() && !stop
            invariant
                0 <= j <= out@.len(),
                sc@ == s@,
                stop ==> j < out@.len() && chars_order(out@[j as int]@, s@) > 0,
                forall|k: int| 0 <= k < j ==> chars_order(out@[k]@, s@) <= 0,
            decreases out@.len() - j + (if stop { 0int } else { 1int }),
        {
            let oc = chars_of(out[j].as_str());
            if compare_chars(oc.as_slice(), sc.as_slice()) > 0 {
                stop = true;
            } else {
                j = j + 1;
            }
        }
        let ghost before = out@;
        out.insert(j, s);
        proof {
            assert(string_views(out@) =~= string_views(before).insert(j as int, s@));
            assert(string_views(all.take(taken + 1)) =~= string_views(all.take(taken)).push(s@));
            assert forall|a: int, b: int| 0 <= a < b < out@.len() implies chars_order(
                (#[trigger] out@[a])@,
                (#[trigger] out@[b])@,
            ) <= 0 by {
                if a < j && b == j {
                } else if a < j && b > j {
                    assert(out@[a] == before[a]);
                    assert(out@[b] == before[b - 1]);
                } else if a == j && b > j {
                    assert(out@[b] == before[b - 1]);
                    lemma_after_insert_point(before, s@, j as int, b - 1);
                } else if a > j {
                    assert(out@[a] == before[a - 1]);
                    assert(out@[b] == before[b - 1]);
                } else {
                    assert(out@[a] == before[a]);
                    assert(out@[b] == before[b]);
                }
            }
            taken = taken + 1;
            assert(rest@ =~= all.skip(taken));
        }
    }
    proof {
        assert(all.take(taken) =~= all);
    }
    out
}

/// Where insertion stopped, the string there sorts after `x`, and so does
/// every later one of a sorted sequence.
proof fn lemma_after_insert_point(s: Seq<String>, x: Seq<char>, j: int, b: int)
    requires
        strings_sorted(s),
        0 <= j <= b < s.len(),
        chars_order(s[j]@, x) > 0,
    ensures
        chars_order(x, s[b]@) <= 0,
{
    lemma_chars_order(s[j]@, x);
    if b > j {
        assert(chars_order(s[j]@, s[b]@) <= 0);
        lemma_chars_order_trans(x, s[j]@, s[b]@);
    }
}

/// Whether `info` is what manifest `m` declares: its id, name, version and
/// update URL, whether it has a source entry, and its renderers in
/// code-point order.
pub open spec fn info_of_manifest(m: PluginManifestFields, info: PluginArchiveInfo) -> bool {
    &&& info.id == m.id
    &&& info.name == m.name
    &&& info.version == m.version
    &&& info.update == m.update
    &&& info.has_source == m.entry is Some
    &&& strings_sorted(info.renderers@)
    &&& string_views(info.renderers@).to_multiset() == string_views(m.renderer_names@).to_multiset()
}

/// Why a manifest with a source entry and this entry version is refused.
pub open spec fn entry_error_message(entry_version: Option<u32>) -> Seq<char> {
    match entry_version {
        None => "plugin.entry requires plugin.entry_version"@,
        Some(v) => unsupported_entry_message(v),
    }
}

/// What a manifest declares, once its entry version checks out; its
/// renderers in code-point order.
pub fn plugin_info_from_manifest(m: PluginManifestFields) -> (r: Result<PluginArchiveInfo, String>)
    ensures
        r is Ok <==> check_entry_version_ok(m.entry is Some, m.entry_version),
        r matches Ok(info) ==> info_of_manifest(m, info),
        r matches Err(e) ==> e@ == entry_error_message(m.entry_version),
{
    let checked = check_entry_version(m.entry.is_some(), m.entry_version);
    if let Err(e) = checked {
        return Err(e);
    }
    let has_source = m.entry.is_some();
    Ok(PluginArchiveInfo {
        id: m.id,
        name: m.name,
        version: m.version,
        update: m.update,
        has_source,
        renderers: sort_strings(m.renderer_names),
    })
}

/// Whether `check_entry_version` accepts.
pub open spec fn check_entry_version_ok(has_entry: bool, entry_version: Option<u32>) -> bool {
    !has_entry || (entry_version matches Some(v) && (v == 3 || v == 4))
}

/// The manifest of the installed user plugin `plugin_id`: `None` when
/// there is no user plugin directory; a refusal for an unsafe id.
pub fn user_plugin_manifest_path(plugin_id: &str, user_plugins_dir: Option<&str>) -> (r: Result<Option<String>, PluginFileError>)
    ensures
        !is_plugin_dir_name(plugin_id@) ==> r is Err,
        is_plugin_dir_name(plugin_id@) ==> match user_plugins_dir {
            None => r == Ok::<Option<String>, PluginFileError>(None),
            Some(d) => (r matches Ok(Some(p)) && p@ == crate::paths::spec_join(
                crate::paths::spec_join(d@, plugin_id@),
                "plugin.toml"@,
            )),
        },
{
    validate_plugin_dir_name(plugin_id)?;
    match user_plugins_dir {
        None => Ok(None),
        Some(dir) => {
            let d = crate::paths::join(dir, plugin_id);
            Ok(Some(crate::paths::join(d.as_str(), "plugin.toml")))
        },
    }
}

/// What an installed user plugin declares: `None` when there is no user
/// plugin directory or the plugin has no manifest file. `manifest` is the
/// manifest as read and parsed (`None`: no such file; `Err`: it could not
/// be read or parsed).
pub fn inspect_user_plugin(
    plugin_id: &str,
    user_plugins_dir: Option<&str>,
    manifest: Option<Result<PluginManifestFields, String>>,
) -> (r: Result<Option<PluginArchiveInfo>, PluginFileError>)
    ensures
        !is_plugin_dir_name(plugin_id@) ==> r is Err,
        is_plugin_dir_name(plugin_id@) && (user_plugins_dir is None || manifest is None) ==> r
            == Ok::<Option<PluginArchiveInfo>, PluginFileError>(None),
        is_plugin_dir_name(plugin_id@) && user_plugins_dir is Some ==> match manifest {
            Some(Err(e)) => r == Err::<Option<PluginArchiveInfo>, PluginFileError>(PluginFileError::InstallFailed(e)),
            Some(Ok(m)) => if check_entry_version_ok(m.entry is Some, m.entry_version) {
                (r matches Ok(Some(info)) && info_of_manifest(m, info))
            } else {
                (r matches Err(PluginFileError::InstallFailed(e)) && e@ == entry_error_message(m.entry_version))
            },
            None => true,
        },
{
    validate_plugin_dir_name(plugin_id)?;
    if user_plugins_dir.is_none() {
        return Ok(None);
    }
    match manifest {
        None => Ok(None),
        Some(Err(e)) => Err(PluginFileError::InstallFailed(e)),
        Some(Ok(m)) => match plugin_info_from_manifest(m) {
            Ok(info) => Ok(Some(info)),
            Err(e) => Err(PluginFileError::InstallFailed(e)),
        },
    }
}

} // verus!
