//! Where the daemon keeps its files, from the XDG base directories and
//! `HOME` (read by the caller), joined the way `PathBuf::join` joins.

use vstd::prelude::*;
use crate::text::{chars_of, owned, push_char, push_str};

verus! {

/// `base` joined with the relative or absolute path `rel`: an absolute
/// `rel` replaces `base`; otherwise a separator goes between them unless
/// `base` is empty or already ends in one.
pub open spec fn spec_join(base: Seq<char>, rel: Seq<char>) -> Seq<char> {
    if rel.len() > 0 && rel[0] == '/' {
        rel
    } else if base.len() == 0 || base.last() == '/' {
        base + rel
    } else {
        base.push('/') + rel
    }
}

/// `base` joined with `rel`, as `PathBuf::join` does on Unix.
pub fn join(base: &str, rel: &str) -> (r: String)
    ensures
        r@ == spec_join(base@, rel@),
{
    let r = chars_of(rel);
    if r.len() > 0 && r[0] == '/' {
        return owned(rel);
    }
    let b = chars_of(base);
    let mut out = owned(base);
    if b.len() > 0 && b[b.len() - 1] != '/' {
        push_char(&mut out, '/');
    }
    push_str(&mut out, rel);
    out
}

/// The first of `xdg_dir` joined with `under_xdg` and `home` joined with
/// `under_home` whose variable is set, else `fallback`.
pub open spec fn spec_base_dir_path(
    xdg_dir: Option<Seq<char>>,
    home: Option<Seq<char>>,
    under_xdg: Seq<char>,
    under_home: Seq<char>,
    fallback: Seq<char>,
) -> Seq<char> {
    match xdg_dir {
        Some(x) => spec_join(x, under_xdg),
        None => match home {
            Some(h) => spec_join(h, under_home),
            None => fallback,
        },
    }
}

pub open spec fn opt_view(s: Option<&str>) -> Option<Seq<char>> {
    match s {
        Some(v) => Some(v@),
        None => None,
    }
}

/// The configuration file: under `$XDG_CONFIG_HOME`, else under
/// `$HOME/.config`, else `waywallen.toml` in the working directory.
pub fn default_config_path(xdg_config_home: Option<&str>, home: Option<&str>) -> (r: String)
    ensures
        r@ == spec_base_dir_path(
            opt_view(xdg_config_home),
            opt_view(home),
            "waywallen/config.toml"@,
            ".config/waywallen/config.toml"@,
            "waywallen.toml"@,
        ),
{
    match xdg_config_home {
        Some(x) => join(x, "waywallen/config.toml"),
        None => match home {
            Some(h) => join(h, ".config/waywallen/config.toml"),
            None => owned("waywallen.toml"),
        },
    }
}

/// The database file: under `$XDG_DATA_HOME`, else under
/// `$HOME/.local/share`, else `waywallen-v2.db` in the working directory.
pub fn default_db_path(xdg_data_home: Option<&str>, home: Option<&str>) -> (r: String)
    ensures
        r@ == spec_base_dir_path(
            opt_view(xdg_data_home),
            opt_view(home),
            "waywallen/waywallen-v2.db"@,
            ".local/share/waywallen/waywallen-v2.db"@,
            "waywallen-v2.db"@,
        ),
{
    match xdg_data_home {
        Some(x) => join(x, "waywallen/waywallen-v2.db"),
        None => match home {
            Some(h) => join(h, ".local/share/waywallen/waywallen-v2.db"),
            None => owned("waywallen-v2.db"),
        },
    }
}

/// The directory holding the database file (the parent of
/// `default_db_path`; empty when that path is a bare file name).
pub fn data_dir(xdg_data_home: Option<&str>, home: Option<&str>) -> (r: String)
    ensures
        r@ == spec_base_dir_path(
            opt_view(xdg_data_home),
            opt_view(home),
            "waywallen"@,
            ".local/share/waywallen"@,
            ""@,
        ),
{
    match xdg_data_home {
        Some(x) => join(x, "waywallen"),
        None => match home {
            Some(h) => join(h, ".local/share/waywallen"),
            None => owned(""),
        },
    }
}

/// Where plugins keep state: `plugin-state` in the data directory.
pub fn plugin_state_dir(xdg_data_home: Option<&str>, home: Option<&str>) -> (r: String)
    ensures
        r@ == spec_join(
            spec_base_dir_path(
                opt_view(xdg_data_home),
                opt_view(home),
                "waywallen"@,
                ".local/share/waywallen"@,
                ""@,
            ),
            "plugin-state"@,
        ),
{
    let data = data_dir(xdg_data_home, home);
    join(data.as_str(), "plugin-state")
}

/// Characters allowed in a path segment as they are.
pub open spec fn segment_char_kept(c: char) -> bool {
    ('a' <= c <= 'z') || ('A' <= c <= 'Z') || ('0' <= c <= '9') || c == '.' || c == '_' || c == '-'
}

/// `input` with each character other than ASCII letters, digits, `.`, `_`
/// and `-` replaced by `_`; `default` for empty input.
pub open spec fn spec_sanitize_path_segment(input: Seq<char>) -> Seq<char> {
    if input.len() == 0 {
        "default"@
    } else {
        input.map_values(|c: char| if segment_char_kept(c) { c } else { '_' })
    }
}

/// A string made safe as one path segment.
pub fn sanitize_path_segment(input: &str) -> (r: String)
    ensures
        r@ == spec_sanitize_path_segment(input@),
{
    let chars = chars_of(input);
    if chars.len() == 0 {
        let r = owned("default");
        return r;
    }
    let mut out = String::new();
    let mut i: usize = 0;
    while i < chars.len()
        invariant
            0 <= i <= chars@.len(),
            chars@ == input@,
            out@ == input@.take(i as int).map_values(|c: char| if segment_char_kept(c) { c } else { '_' }),
        decreases chars@.len() - i,
    {
        let c = chars[i];
        let kept = ('a' <= c && c <= 'z') || ('A' <= c && c <= 'Z') || ('0' <= c && c <= '9') || c == '.'
            || c == '_' || c == '-';
        push_char(&mut out, if kept { c } else { '_' });
        proof {
            assert(input@.take(i + 1).map_values(|c: char| if segment_char_kept(c) { c } else { '_' })
                =~= input@.take(i as int).map_values(|c: char| if segment_char_kept(c) { c } else { '_' }).push(
                if segment_char_kept(c) { c } else { '_' },
            ));
        }
        i = i + 1;
    }
    proof {
        assert(input@.take(input@.len() as int) =~= input@);
    }
    out
}

/// Downloaded content of a remote source: `remote/<sanitized source id>`
/// in the data directory.
pub fn remote_content_dir(xdg_data_home: Option<&str>, home: Option<&str>, source_id: &str) -> (r: String)
    ensures
        r@ == spec_join(
            spec_join(
                spec_base_dir_path(
                    opt_view(xdg_data_home),
                    opt_view(home),
                    "waywallen"@,
                    ".local/share/waywallen"@,
                    ""@,
                ),
                "remote"@,
            ),
            spec_sanitize_path_segment(source_id@),
        ),
{
    let data = data_dir(xdg_data_home, home);
    let remote = join(data.as_str(), "remote");
    let segment = sanitize_path_segment(source_id);
    join(remote.as_str(), segment.as_str())
}

} // verus!
