//! Host snapshot: operating-system name from `os-release` text and the
//! GPUs, with lookup of a render node by its DRM device number.

use crate::gpu::{parse_drm_dev, spec_parse_drm_dev, GpuInfo};
use crate::text::{chars_of, has_at, string_of, trim, trim_bounds, copy_range};
use vstd::prelude::*;

verus! {

#[derive(Clone, Debug, Default)]
pub struct SystemInfo {
    os_name: String,
    gpus: Vec<GpuInfo>,
}

/// `unescape` from position `i` with `acc` produced so far: a backslash
/// keeps the character after it, a final lone backslash fails.
pub open spec fn unescape_from(s: Seq<char>, i: int, acc: Seq<char>) -> Option<Seq<char>>
    decreases s.len() - i,
{
    if i < 0 || i >= s.len() {
        Some(acc)
    } else if s[i] == '\\' {
        if i + 1 >= s.len() {
            None
        } else {
            unescape_from(s, i + 2, acc.push(s[i + 1]))
        }
    } else {
        unescape_from(s, i + 1, acc.push(s[i]))
    }
}

pub open spec fn spec_unescape(s: Seq<char>) -> Option<Seq<char>> {
    unescape_from(s, 0, Seq::empty())
}

/// A value: double-quoted (escapes apply), single-quoted (verbatim) or bare
/// (escapes apply).
pub open spec fn spec_parse_value(v: Seq<char>) -> Option<Seq<char>> {
    if v.len() >= 2 && v[0] == '"' && v.last() == '"' {
        spec_unescape(v.subrange(1, v.len() - 1))
    } else if v.len() >= 2 && v[0] == '\'' && v.last() == '\'' {
        Some(v.subrange(1, v.len() - 1))
    } else {
        spec_unescape(v)
    }
}

/// First index of `c` at or after `from`.
pub open spec fn index_of(s: Seq<char>, c: char, from: int) -> Option<int>
    decreases s.len() - from,
{
    if from < 0 || from >= s.len() {
        None
    } else if s[from] == c {
        Some(from)
    } else {
        index_of(s, c, from + 1)
    }
}

/// The value of a `NAME=` line, if the line is one.
pub open spec fn spec_parse_name_line(line: Seq<char>) -> Option<Seq<char>> {
    let t = trim(line);
    if t.len() == 0 || t[0] == '#' {
        None
    } else {
        match index_of(t, '=', 0) {
            None => None,
            Some(eq) => if trim(t.take(eq)) != "NAME"@ {
                None
            } else {
                spec_parse_value(trim(t.skip(eq + 1)))
            },
        }
    }
}

/// The last `NAME=` value among the lines of the first `n` characters, and
/// the unfinished line.
pub open spec fn os_scan_prefix(text: Seq<char>, n: nat) -> (Option<Seq<char>>, Seq<char>)
    decreases n,
{
    if n == 0 {
        (None, Seq::empty())
    } else {
        let (best, line) = os_scan_prefix(text, (n - 1) as nat);
        if text[n - 1] == '\n' {
            (
                match spec_parse_name_line(line) {
                    Some(v) => Some(v),
                    None => best,
                },
                Seq::empty(),
            )
        } else {
            (best, line.push(text[n - 1]))
        }
    }
}

/// The value of the last `NAME=` line of `os-release` text.
pub open spec fn spec_parse_os_name(text: Seq<char>) -> Option<Seq<char>> {
    let (best, line) = os_scan_prefix(text, text.len());
    match spec_parse_name_line(line) {
        Some(v) => Some(v),
        None => best,
    }
}

fn index_of_exec(s: &[char], c: char, from: usize, to: usize) -> (r: Option<usize>)
    requires
        from <= to <= s@.len(),
    ensures
        match r {
            Some(i) => index_of(s@.subrange(0, to as int), c, from as int) == Some(i as int)
                && from <= i < to,
            None => index_of(s@.subrange(0, to as int), c, from as int) is None,
        },
{
    let ghost t = s@.subrange(0, to as int);
    let mut i = from;
    while i < to
        invariant
            from <= i <= to <= s@.len(),
            t == s@.subrange(0, to as int),
            index_of(t, c, from as int) == index_of(t, c, i as int),
        decreases to - i,
    {
        if s[i] == c {
            return Some(i);
        }
        i = i + 1;
    }
    None
}

/// Unescapes `s[from..to]`.
fn unescape(s: &[char], from: usize, to: usize) -> (r: Option<Vec<char>>)
    requires
        from <= to <= s@.len(),
    ensures
        match spec_unescape(s@.subrange(from as int, to as int)) {
            Some(v) => r matches Some(out) && out@ == v,
            None => r is None,
        },
{
    let ghost t = s@.subrange(from as int, to as int);
    let mut out: Vec<char> = Vec::new();
    let mut i = from;
    while i < to
        invariant
            from <= i <= to <= s@.len(),
            t == s@.subrange(from as int, to as int),
            spec_unescape(t) == unescape_from(t, i - from, out@),
        decreases to - i,
    {
        if s[i] == '\\' {
            if i + 1 >= to {
                return None;
            }
            out.push(s[i + 1]);
            i = i + 2;
        } else {
            out.push(s[i]);
            i = i + 1;
        }
    }
    Some(out)
}

fn parse_value(s: &[char], from: usize, to: usize) -> (r: Option<Vec<char>>)
    requires
        from <= to <= s@.len(),
    ensures
        match spec_parse_value(s@.subrange(from as int, to as int)) {
            Some(v) => r matches Some(out) && out@ == v,
            None => r is None,
        },
{
    let ghost v = s@.subrange(from as int, to as int);
    if to - from >= 2 && s[from] == '"' && s[to - 1] == '"' {
        assert(v.subrange(1, v.len() - 1) =~= s@.subrange(from + 1, to - 1));
        return unescape(s, from + 1, to - 1);
    }
    if to - from >= 2 && s[from] == '\'' && s[to - 1] == '\'' {
        assert(v.subrange(1, v.len() - 1) =~= s@.subrange(from + 1, to - 1));
        return Some(copy_range(s, from + 1, to - 1));
    }
    unescape(s, from, to)
}

fn parse_name_line(s: &[char], from: usize, to: usize) -> (r: Option<Vec<char>>)
    requires
        from <= to <= s@.len(),
    ensures
        match spec_parse_name_line(s@.subrange(from as int, to as int)) {
            Some(v) => r matches Some(out) && out@ == v,
            None => r is None,
        },
{
    let ghost line = s@.subrange(from as int, to as int);
    let (a, b) = trim_bounds(s, from, to);
    let ghost t = s@.subrange(a as int, b as int);
    if a == b || s[a] == '#' {
        return None;
    }
    assert(s@.subrange(0, b as int).subrange(a as int, b as int) =~= t);
    let eq = match index_of_exec(s, '=', a, b) {
        Some(e) => e,
        None => {
            proof {
                lemma_index_of_shift(s@.subrange(0, b as int), '=', a as int, a as int);
            }
            return None;
        },
    };
    proof {
        lemma_index_of_shift(s@.subrange(0, b as int), '=', a as int, a as int);
        assert(t.take(eq - a) =~= s@.subrange(a as int, eq as int));
        assert(t.skip(eq - a + 1) =~= s@.subrange(eq + 1, b as int));
    }
    let (ka, kb) = trim_bounds(s, a, eq);
    let key = copy_range(s, ka, kb);
    let name: [char; 4] = ['N', 'A', 'M', 'E'];
    proof {
        reveal_strlit("NAME");
        assert(name@ =~= "NAME"@);
    }
    if !crate::text::chars_eq(key.as_slice(), &name) {
        return None;
    }
    let (va, vb) = trim_bounds(s, eq + 1, b);
    parse_value(s, va, vb)
}

/// `index_of` over a sequence equals `index_of` over its suffix, shifted.
proof fn lemma_index_of_shift(s: Seq<char>, c: char, a: int, i: int)
    requires
        0 <= a <= i <= s.len(),
    ensures
        match index_of(s, c, i) {
            Some(k) => index_of(s.skip(a), c, i - a) == Some(k - a),
            None => index_of(s.skip(a), c, i - a) is None,
        },
    decreases s.len() - i,
{
    if i < s.len() {
        assert(s.skip(a)[i - a] == s[i]);
        lemma_index_of_shift(s, c, a, i + 1);
    }
}

/// The value of the last `NAME=` line of `os-release` text.
pub fn parse_os_name(content: &str) -> (r: Option<String>)
    ensures
        match spec_parse_os_name(content@) {
            Some(v) => r matches Some(s) && s@ == v,
            None => r is None,
        },
{
    let text = chars_of(content);
    let mut best: Option<Vec<char>> = None;
    let mut start: usize = 0;
    let mut i: usize = 0;
    while i < text.len()
        invariant
            0 <= start <= i <= text@.len(),
            text@ == content@,
            match os_scan_prefix(text@, i as nat).0 {
                Some(v) => best matches Some(b) && b@ == v,
                None => best is None,
            },
            os_scan_prefix(text@, i as nat).1 == text@.subrange(start as int, i as int),
        decreases text@.len() - i,
    {
        if text[i] == '\n' {
            match parse_name_line(text.as_slice(), start, i) {
                Some(v) => {
                    best = Some(v);
                },
                None => {},
            }
            start = i + 1;
        } else {
            assert(text@.subrange(start as int, i + 1) =~= text@.subrange(start as int, i as int).push(
                text@[i as int],
            ));
        }
        i = i + 1;
    }
    match parse_name_line(text.as_slice(), start, text.len()) {
        Some(v) => {
            best = Some(v);
        },
        None => {},
    }
    match best {
        Some(b) => Some(string_of(b.as_slice())),
        None => None,
    }
}

/// Index of the first GPU with render node `major:minor`.
pub open spec fn first_render_match(gpus: Seq<GpuInfo>, major: u32, minor: u32, from: int) -> Option<
    int,
>
    decreases gpus.len() - from,
{
    if from < 0 || from >= gpus.len() {
        None
    } else if gpus[from].spec_matches_render(major, minor) {
        Some(from)
    } else {
        first_render_match(gpus, major, minor, from + 1)
    }
}

/// Render node path of the first GPU matching `"<major>:<minor>"`.
pub open spec fn spec_render_node_for(gpus: Seq<GpuInfo>, drm_dev: Seq<char>) -> Option<Seq<char>> {
    match spec_parse_drm_dev(drm_dev) {
        None => None,
        Some((major, minor)) => match first_render_match(gpus, major, minor, 0) {
            None => None,
            Some(i) => match gpus[i].render_node {
                Some(p) => Some(p@),
                None => None,
            },
        },
    }
}

impl SystemInfo {
    pub closed spec fn spec_os_name(&self) -> Seq<char> {
        self.os_name@
    }

    pub closed spec fn spec_gpus(&self) -> Seq<GpuInfo> {
        self.gpus@
    }

    /// A snapshot from the text of `os-release` (when it could be read) and
    /// the enumerated GPUs; the name is empty when none is found.
    pub fn load(os_release: Option<&str>, gpus: Vec<GpuInfo>) -> (r: Self)
        ensures
            r.spec_os_name() == match os_release {
                Some(text) => match spec_parse_os_name(text@) {
                    Some(v) => v,
                    None => Seq::<char>::empty(),
                },
                None => Seq::<char>::empty(),
            },
            r.spec_gpus() == gpus@,
    {
        let os_name = match os_release {
            Some(content) => match parse_os_name(content) {
                Some(name) => name,
                None => String::new(),
            },
            None => String::new(),
        };
        SystemInfo { os_name, gpus }
    }

    pub fn os_name(&self) -> (r: &str)
        ensures
            r@ == self.spec_os_name(),
    {
        self.os_name.as_str()
    }

    pub fn gpus(&self) -> (r: &[GpuInfo])
        ensures
            r@ == self.spec_gpus(),
    {
        self.gpus.as_slice()
    }

    pub fn has_render_device(&self, drm_dev: &str) -> (r: bool)
        ensures
            r == spec_render_node_for(self.spec_gpus(), drm_dev@) is Some,
    {
        self.render_node_for_drm_dev(drm_dev).is_some()
    }

    /// Path of the render node numbered as `drm_dev` says.
    pub fn render_node_for_drm_dev(&self, drm_dev: &str) -> (r: Option<&str>)
        ensures
            match spec_render_node_for(self.spec_gpus(), drm_dev@) {
                Some(p) => r matches Some(s) && s@ == p,
                None => r is None,
            },
    {
        let (major, minor) = match parse_drm_dev(drm_dev) {
            Some(x) => x,
            None => {
                return None;
            },
        };
        let mut i: usize = 0;
        while i < self.gpus.len()
            invariant
                0 <= i <= self.gpus@.len(),
                spec_parse_drm_dev(drm_dev@) == Some((major, minor)),
                first_render_match(self.gpus@, major, minor, 0) == first_render_match(
                    self.gpus@,
                    major,
                    minor,
                    i as int,
                ),
            decreases self.gpus@.len() - i,
        {
            if self.gpus[i].matches_render(major, minor) {
                assert(first_render_match(self.gpus@, major, minor, i as int) == Some(i as int));
                let g = &self.gpus[i];
                assert(*g == self.gpus@[i as int]);
                return match &g.render_node {
                    Some(p) => {
                        let r = p.as_str();
                        assert(r@ == p@);
                        Some(r)
                    },
                    None => None,
                };
            }
            i = i + 1;
        }
        None
    }
}

} // verus!
