//! GPU description: DRM device numbers, PCI identity and the `pci.ids`
//! name database.

use crate::text::{chars_of, copy_range, decimal, digits_value, has_at, hex_value, digit_in_base, is_whitespace, parse_digits, push_char, push_decimal, push_hex_fixed, push_str, hex_fixed, owned, skip_whitespace, string_of, trim, trim_bounds, trim_start, char_is_whitespace};
use vstd::prelude::*;

verus! {

/// Plugin-settings key that persists "preferred GPU" as `"<major>:<minor>"`.
pub const GPU_DRM_DEV_KEY: &'static str = "gpu_drm_dev";

/// Settings key that flows to the renderer subprocess's init settings.
pub const RENDER_NODE_KEY: &'static str = "render_node";

#[derive(Debug, Clone, Default, PartialEq, Eq)]
pub struct GpuInfo {
    pub render_node: Option<String>,
    pub primary_node: Option<String>,
    pub render_major: u32,
    pub render_minor: u32,
    pub primary_major: u32,
    pub primary_minor: u32,
    pub pci_bdf: Option<String>,
    pub vendor_id: u16,
    pub device_id: u16,
    pub subsystem_vendor_id: u16,
    pub subsystem_device_id: u16,
    pub driver: String,
    pub name: String,
    pub description: String,
}

impl GpuInfo {
    pub open spec fn spec_matches_render(&self, major: u32, minor: u32) -> bool {
        self.render_node is Some && self.render_major == major && self.render_minor == minor
    }

    /// Whether this GPU has a render node numbered `major:minor`.
    pub fn matches_render(&self, major: u32, minor: u32) -> (r: bool)
        ensures
            r == self.spec_matches_render(major, minor),
    {
        self.render_node.is_some() && self.render_major == major && self.render_minor == minor
    }
}

// ---------------------------------------------------------------------------
// Numbers

/// First index at or after `from` holding `c`.
pub open spec fn find_char(s: Seq<char>, c: char, from: int) -> Option<int>
    decreases s.len() - from,
{
    if from < 0 || from >= s.len() {
        None
    } else if s[from] == c {
        Some(from)
    } else {
        find_char(s, c, from + 1)
    }
}

pub fn find_char_exec(s: &[char], c: char, from: usize) -> (r: Option<usize>)
    requires
        from <= s@.len(),
    ensures
        match r {
            Some(i) => find_char(s@, c, from as int) == Some(i as int) && from <= i < s@.len()
                && s@[i as int] == c,
            None => find_char(s@, c, from as int) is None,
        },
{
    let mut i = from;
    while i < s.len()
        invariant
            from <= i <= s@.len(),
            find_char(s@, c, from as int) == find_char(s@, c, i as int),
        decreases s@.len() - i,
    {
        if s[i] == c {
            return Some(i);
        }
        i = i + 1;
    }
    None
}

/// `u32` parsing as `str::parse` does it: an optional `+`, then one or more
/// decimal digits, within range.
pub open spec fn spec_parse_u32(s: Seq<char>) -> Option<u32> {
    let digits = if s.len() > 0 && s[0] == '+' {
        s.drop_first()
    } else {
        s
    };
    if digits.len() == 0 {
        None
    } else {
        match digits_value(digits, 10) {
            Some(v) => if v <= u32::MAX {
                Some(v as u32)
            } else {
                None
            },
            None => None,
        }
    }
}

/// `u16` parsing in base sixteen as `u16::from_str_radix` does it.
pub open spec fn spec_parse_hex_u16(s: Seq<char>) -> Option<u16> {
    let digits = if s.len() > 0 && s[0] == '+' {
        s.drop_first()
    } else {
        s
    };
    if digits.len() == 0 {
        None
    } else {
        match digits_value(digits, 16) {
            Some(v) => if v <= u16::MAX {
                Some(v as u16)
            } else {
                None
            },
            None => None,
        }
    }
}

/// Parses `s[from..to]` as a number in `base` with an optional `+` sign.
fn parse_number(s: &[char], from: usize, to: usize, base: u64, max: u64) -> (r: Option<u64>)
    requires
        from <= to <= s@.len(),
        base == 10 || base == 16,
        max >= 16,
    ensures
        ({
            let sub = s@.subrange(from as int, to as int);
            let digits = if sub.len() > 0 && sub[0] == '+' {
                sub.drop_first()
            } else {
                sub
            };
            match r {
                Some(v) => digits.len() > 0 && digits_value(digits, base as nat) == Some(v as nat)
                    && v <= max,
                None => digits.len() == 0 || match digits_value(digits, base as nat) {
                    Some(v) => v > max,
                    None => true,
                },
            }
        }),
{
    let start = if from < to && s[from] == '+' {
        from + 1
    } else {
        from
    };
    proof {
        let sub = s@.subrange(from as int, to as int);
        if from < to && s@[from as int] == '+' {
            assert(sub.drop_first() =~= s@.subrange(start as int, to as int));
        } else {
            assert(sub =~= s@.subrange(start as int, to as int));
        }
    }
    let digits = copy_range(s, start, to);
    parse_digits(digits.as_slice(), base, max)
}

fn parse_u32_range(s: &[char], from: usize, to: usize) -> (r: Option<u32>)
    requires
        from <= to <= s@.len(),
    ensures
        r == spec_parse_u32(s@.subrange(from as int, to as int)),
{
    match parse_number(s, from, to, 10, 0xffff_ffff) {
        Some(v) => Some(v as u32),
        None => None,
    }
}

fn parse_hex_u16_range(s: &[char], from: usize, to: usize) -> (r: Option<u16>)
    requires
        from <= to <= s@.len(),
    ensures
        r == spec_parse_hex_u16(s@.subrange(from as int, to as int)),
{
    match parse_number(s, from, to, 16, 0xffff) {
        Some(v) => Some(v as u16),
        None => None,
    }
}

/// `"<major>:<minor>"`, split at the first colon.
pub open spec fn spec_parse_drm_dev(s: Seq<char>) -> Option<(u32, u32)> {
    match find_char(s, ':', 0) {
        None => None,
        Some(i) => match (spec_parse_u32(s.take(i)), spec_parse_u32(s.skip(i + 1))) {
            (Some(a), Some(b)) => Some((a, b)),
            _ => None,
        },
    }
}

pub fn parse_drm_dev(s: &str) -> (r: Option<(u32, u32)>)
    ensures
        r == spec_parse_drm_dev(s@),
{
    let chars = chars_of(s);
    let len = chars.len();
    let colon = match find_char_exec(chars.as_slice(), ':', 0) {
        Some(i) => i,
        None => {
            assert(find_char(s@, ':', 0) is None);
            return None;
        },
    };
    assert(colon < len);
    assert(chars@.subrange(0, colon as int) =~= chars@.take(colon as int));
    assert(chars@.subrange(colon + 1, chars@.len() as int) =~= chars@.skip(colon + 1));
    let major = match parse_u32_range(chars.as_slice(), 0, colon) {
        Some(v) => v,
        None => {
            return None;
        },
    };
    let minor = match parse_u32_range(chars.as_slice(), colon + 1, chars.len()) {
        Some(v) => v,
        None => {
            return None;
        },
    };
    Some((major, minor))
}

pub open spec fn spec_drm_dev_text(major: u32, minor: u32) -> Seq<char> {
    decimal(major as nat) + seq![':'] + decimal(minor as nat)
}

pub fn format_drm_dev(major: u32, minor: u32) -> (s: String)
    ensures
        s@ == spec_drm_dev_text(major, minor),
{
    let mut s = String::new();
    push_decimal(&mut s, major as u64);
    push_char(&mut s, ':');
    push_decimal(&mut s, minor as u64);
    assert(s@ =~= spec_drm_dev_text(major, minor));
    s
}

/// A decimal rendering is a non-empty run of decimal digits that reads
/// back as its value.
proof fn lemma_decimal_reads_back(v: nat)
    ensures
        decimal(v).len() > 0,
        forall|i: int| 0 <= i < decimal(v).len() ==> '0' <= #[trigger] decimal(v)[i] <= '9',
        digits_value(decimal(v), 10) == Some(v),
    decreases v,
{
    if v < 10 {
        let d = decimal(v);
        assert(d.drop_last() =~= Seq::<char>::empty());
        assert(digits_value(d.drop_last(), 10) == Some(0nat));
        assert(hex_value(d.last()) == Some(v));
        assert(digit_in_base(d.last(), 10) == Some(v));
    } else {
        let hi = decimal(v / 10);
        lemma_decimal_reads_back(v / 10);
        let d = decimal(v);
        assert(d.drop_last() =~= hi);
        let r = (v % 10) as int;
        assert(hex_value(d.last()) == Some(r as nat));
        assert(digit_in_base(d.last(), 10) == Some(r as nat));
        assert(digits_value(d.drop_last(), 10) == Some(v / 10));
        assert((v / 10) * 10 + v % 10 == v) by (nonlinear_arith);
        assert forall|i: int| 0 <= i < d.len() implies '0' <= #[trigger] d[i] <= '9' by {
            if i < hi.len() {
                assert(d[i] == hi[i]);
            }
        }
    }
}

proof fn lemma_find_char_at(s: Seq<char>, c: char, from: int, k: int)
    requires
        0 <= from <= k < s.len(),
        s[k] == c,
        forall|j: int| from <= j < k ==> s[j] != c,
    ensures
        find_char(s, c, from) == Some(k),
    decreases k - from,
{
    if from < k {
        lemma_find_char_at(s, c, from + 1, k);
    }
}

/// Formatting a device number and parsing it back gives the same major
/// and minor numbers.
pub proof fn law_drm_dev_text_round_trip(major: u32, minor: u32)
    ensures
        spec_parse_drm_dev(spec_drm_dev_text(major, minor)) == Some((major, minor)),
{
    let a = decimal(major as nat);
    let b = decimal(minor as nat);
    let t = spec_drm_dev_text(major, minor);
    lemma_decimal_reads_back(major as nat);
    lemma_decimal_reads_back(minor as nat);
    assert(t[a.len() as int] == ':');
    assert forall|j: int| 0 <= j < a.len() implies t[j] != ':' by {
        assert(t[j] == a[j]);
    }
    lemma_find_char_at(t, ':', 0, a.len() as int);
    assert(t.take(a.len() as int) =~= a);
    assert(t.skip(a.len() as int + 1) =~= b);
    assert(a[0] != '+');
    assert(b[0] != '+');
}

/// Major number of a Linux `dev_t` (extended glibc encoding).
pub fn dev_major(rdev: u64) -> (r: u32)
    ensures
        r == (((rdev >> 8u64) & 0xfffu64) | ((rdev >> 32u64) & !0xfffu64)) as u32,
{
    (((rdev >> 8u64) & 0xfffu64) | ((rdev >> 32u64) & !0xfffu64)) as u32
}

/// Minor number of a Linux `dev_t` (extended glibc encoding).
pub fn dev_minor(rdev: u64) -> (r: u32)
    ensures
        r == ((rdev & 0xffu64) | ((rdev >> 12u64) & !0xffu64)) as u32,
{
    ((rdev & 0xffu64) | ((rdev >> 12u64) & !0xffu64)) as u32
}

/// A device number built from `major` and `minor` (below 4096 and 256)
/// decodes back to them.
pub proof fn law_dev_numbers_round_trip(major: u64, minor: u64)
    requires
        major < 4096,
        minor < 256,
    ensures
        ({
            let rdev = (major << 8u64) | minor;
            &&& (((rdev >> 8u64) & 0xfffu64) | ((rdev >> 32u64) & !0xfffu64)) as u32 == major
            &&& ((rdev & 0xffu64) | ((rdev >> 12u64) & !0xffu64)) as u32 == minor
        }),
{
    let rdev = (major << 8u64) | minor;
    assert((((rdev >> 8u64) & 0xfffu64) | ((rdev >> 32u64) & !0xfffu64)) == major && ((rdev
        & 0xffu64) | ((rdev >> 12u64) & !0xffu64)) == minor) by (bit_vector)
        requires
            major < 4096,
            minor < 256,
            rdev == (major << 8u64) | minor,
    ;
}

// ---------------------------------------------------------------------------
// pci.ids

/// First whitespace index at or after `from`.
pub open spec fn find_whitespace(s: Seq<char>, from: int) -> Option<int>
    decreases s.len() - from,
{
    if from < 0 || from >= s.len() {
        None
    } else if is_whitespace(s[from]) {
        Some(from)
    } else {
        find_whitespace(s, from + 1)
    }
}

/// A four-digit hexadecimal id at the start of `v` (after leading
/// whitespace), and what follows it with leading whitespace removed.
pub open spec fn spec_take_hex_field(v: Seq<char>) -> Option<(u16, Seq<char>)> {
    let t = trim_start(v);
    match find_whitespace(t, 0) {
        None => None,
        Some(end) => if end != 4 {
            None
        } else {
            match spec_parse_hex_u16(t.take(4)) {
                None => None,
                Some(id) => Some((id, trim_start(t.skip(4)))),
            }
        },
    }
}

/// `take_hex_field` over `s[from..to]`: the id and the index where the
/// remainder starts.
fn take_hex_field(s: &[char], from: usize, to: usize) -> (r: Option<(u16, usize)>)
    requires
        from <= to <= s@.len(),
    ensures
        match spec_take_hex_field(s@.subrange(from as int, to as int)) {
            Some((id, rest)) => r matches Some((rid, at)) && rid == id && from <= at <= to
                && s@.subrange(at as int, to as int) == rest,
            None => r is None,
        },
{
    let a = skip_whitespace(s, from, to);
    let ghost t = s@.subrange(a as int, to as int);
    let mut e = a;
    while e < to && !char_is_whitespace(s[e])
        invariant
            a <= e <= to <= s@.len(),
            t == s@.subrange(a as int, to as int),
            find_whitespace(t, 0) == find_whitespace(t, e - a),
        decreases to - e,
    {
        assert(t[e - a] == s@[e as int]);
        e = e + 1;
    }
    if e == to {
        return None;
    }
    assert(t[e - a] == s@[e as int]);
    if e - a != 4 {
        return None;
    }
    assert(t.take(4) =~= s@.subrange(a as int, e as int));
    let id = match parse_hex_u16_range(s, a, e) {
        Some(id) => id,
        None => {
            return None;
        },
    };
    let rest = skip_whitespace(s, e, to);
    assert(t.skip(4) =~= s@.subrange(e as int, to as int));
    Some((id, rest))
}

/// Names gathered for the GPUs while scanning the database.
pub struct PciScan {
    pub vendor: Option<u16>,
    pub device: Option<u16>,
    pub device_names: Seq<Option<Seq<char>>>,
    pub subsystem_names: Seq<Option<Seq<char>>>,
}

/// A GPU whose name is still to be looked up.
pub open spec fn pci_target(g: GpuInfo) -> bool {
    g.name@.len() == 0 && g.vendor_id != 0 && g.device_id != 0
}

/// The line without its trailing carriage returns and line feeds.
pub open spec fn trim_line_end(s: Seq<char>) -> Seq<char>
    decreases s.len(),
{
    if s.len() > 0 && (s.last() == '\r' || s.last() == '\n') {
        trim_line_end(s.drop_last())
    } else {
        s
    }
}

/// The effect of one database line.
pub open spec fn pci_step(gpus: Seq<GpuInfo>, st: PciScan, raw: Seq<char>) -> PciScan {
    let line = trim_line_end(raw);
    if line.len() == 0 || line[0] == '#' {
        st
    } else if has_at(line, 0, seq!['C', ' ']) {
        PciScan { vendor: None, device: None, ..st }
    } else if has_at(line, 0, seq!['\t', '\t']) {
        match spec_take_hex_field(line.skip(2)) {
            None => st,
            Some((sub_vendor, r1)) => match spec_take_hex_field(r1) {
                None => st,
                Some((sub_device, r2)) => {
                    let name = trim(r2);
                    if name.len() == 0 {
                        st
                    } else {
                        match (st.vendor, st.device) {
                            (Some(pv), Some(pd)) => PciScan {
                                subsystem_names: Seq::new(
                                    st.subsystem_names.len(),
                                    |i: int|
                                        if pci_target(gpus[i]) && gpus[i].vendor_id == pv
                                            && gpus[i].device_id == pd
                                            && gpus[i].subsystem_vendor_id != 0
                                            && gpus[i].subsystem_device_id != 0
                                            && gpus[i].subsystem_vendor_id == sub_vendor
                                            && gpus[i].subsystem_device_id == sub_device {
                                            Some(name)
                                        } else {
                                            st.subsystem_names[i]
                                        },
                                ),
                                ..st
                            },
                            _ => st,
                        }
                    }
                },
            },
        }
    } else if has_at(line, 0, seq!['\t']) {
        match spec_take_hex_field(line.skip(1)) {
            None => st,
            Some((device, r)) => {
                let st1 = PciScan { device: Some(device), ..st };
                match st.vendor {
                    None => st1,
                    Some(v) => {
                        let name = trim(r);
                        if name.len() == 0 {
                            st1
                        } else {
                            PciScan {
                                device_names: Seq::new(
                                    st.device_names.len(),
                                    |i: int|
                                        if pci_target(gpus[i]) && gpus[i].vendor_id == v
                                            && gpus[i].device_id == device {
                                            Some(name)
                                        } else {
                                            st.device_names[i]
                                        },
                                ),
                                ..st1
                            }
                        }
                    },
                }
            },
        }
    } else {
        PciScan {
            vendor: match spec_take_hex_field(line) {
                Some((v, _)) => Some(v),
                None => None,
            },
            device: None,
            ..st
        }
    }
}

/// Scan state after the first `n` characters of the database, and the
/// unfinished line.
pub open spec fn pci_scan_prefix(gpus: Seq<GpuInfo>, text: Seq<char>, n: nat) -> (PciScan, Seq<
    char,
>)
    decreases n,
{
    if n == 0 {
        (
            PciScan {
                vendor: None,
                device: None,
                device_names: Seq::new(gpus.len(), |i: int| None),
                subsystem_names: Seq::new(gpus.len(), |i: int| None),
            },
            Seq::empty(),
        )
    } else {
        let (st, line) = pci_scan_prefix(gpus, text, (n - 1) as nat);
        if text[n - 1] == '\n' {
            (pci_step(gpus, st, line), Seq::empty())
        } else {
            (st, line.push(text[n - 1]))
        }
    }
}

/// Scan state after the whole database.
pub open spec fn pci_scan(gpus: Seq<GpuInfo>, text: Seq<char>) -> PciScan {
    let (st, line) = pci_scan_prefix(gpus, text, text.len());
    pci_step(gpus, st, line)
}

/// The name the database gives GPU `i`: its subsystem name, else its
/// device name.
pub open spec fn pci_resolved_name(gpus: Seq<GpuInfo>, text: Seq<char>, i: int) -> Option<
    Seq<char>,
> {
    let st = pci_scan(gpus, text);
    match st.subsystem_names[i] {
        Some(n) => Some(n),
        None => st.device_names[i],
    }
}

pub open spec fn same_but_name(a: GpuInfo, b: GpuInfo) -> bool {
    &&& a.render_node == b.render_node
    &&& a.primary_node == b.primary_node
    &&& a.render_major == b.render_major
    &&& a.render_minor == b.render_minor
    &&& a.primary_major == b.primary_major
    &&& a.primary_minor == b.primary_minor
    &&& a.pci_bdf == b.pci_bdf
    &&& a.vendor_id == b.vendor_id
    &&& a.device_id == b.device_id
    &&& a.subsystem_vendor_id == b.subsystem_vendor_id
    &&& a.subsystem_device_id == b.subsystem_device_id
    &&& a.driver == b.driver
    &&& a.description == b.description
}

pub open spec fn opt_chars(o: Option<Vec<char>>) -> Option<Seq<char>> {
    match o {
        Some(v) => Some(v@),
        None => None,
    }
}

/// Exec state of the scan.
struct ScanState {
    vendor: Option<u16>,
    device: Option<u16>,
    device_names: Vec<Option<Vec<char>>>,
    subsystem_names: Vec<Option<Vec<char>>>,
}

impl ScanState {
    spec fn matches(&self, st: PciScan) -> bool {
        &&& self.vendor == st.vendor
        &&& self.device == st.device
        &&& self.device_names@.len() == st.device_names.len()
        &&& self.subsystem_names@.len() == st.subsystem_names.len()
        &&& forall|i: int|
            0 <= i < st.device_names.len() ==> opt_chars(#[trigger] self.device_names@[i])
                == st.device_names[i]
        &&& forall|i: int|
            0 <= i < st.subsystem_names.len() ==> opt_chars(#[trigger] self.subsystem_names@[i])
                == st.subsystem_names[i]
    }
}

fn is_target(g: &GpuInfo) -> (r: bool)
    ensures
        r == pci_target(*g),
{
    g.name.as_str().is_empty() && g.vendor_id != 0 && g.device_id != 0
}

fn line_end_trimmed(line: &[char]) -> (r: usize)
    ensures
        r <= line@.len(),
        trim_line_end(line@) == line@.take(r as int),
{
    let mut n = line.len();
    assert(line@.take(n as int) =~= line@);
    while n > 0 && (line[n - 1] == '\r' || line[n - 1] == '\n')
        invariant
            n <= line@.len(),
            trim_line_end(line@) == trim_line_end(line@.take(n as int)),
        decreases n,
    {
        assert(line@.take(n as int).drop_last() =~= line@.take(n - 1));
        n = n - 1;
    }
    proof {
        if n > 0 {
            assert(line@.take(n as int).last() == line@[n - 1]);
        }
    }
    n
}

/// Sets the subsystem name of every target GPU whose identity matches.
fn set_subsystem_names(
    gpus: &Vec<GpuInfo>,
    state: &mut ScanState,
    raw: &[char],
    from: usize,
    to: usize,
    pv: u16,
    pd: u16,
    sub_vendor: u16,
    sub_device: u16,
)
    requires
        from <= to <= raw@.len(),
        old(state).subsystem_names@.len() == gpus@.len(),
    ensures
        final(state).vendor == old(state).vendor,
        final(state).device == old(state).device,
        final(state).device_names == old(state).device_names,
        final(state).subsystem_names@.len() == gpus@.len(),
        forall|i: int|
            0 <= i < gpus@.len() ==> opt_chars(#[trigger] final(state).subsystem_names@[i]) == (
            if pci_target(gpus@[i]) && gpus@[i].vendor_id == pv && gpus@[i].device_id == pd
                && gpus@[i].subsystem_vendor_id != 0 && gpus@[i].subsystem_device_id != 0
                && gpus@[i].subsystem_vendor_id == sub_vendor && gpus@[i].subsystem_device_id
                == sub_device {
                Some(raw@.subrange(from as int, to as int))
            } else {
                opt_chars(old(state).subsystem_names@[i])
            }),
{
    let mut i: usize = 0;
    while i < gpus.len()
        invariant
            0 <= i <= gpus@.len(),
            from <= to <= raw@.len(),
            state.vendor == old(state).vendor,
            state.device == old(state).device,
            state.device_names == old(state).device_names,
            state.subsystem_names@.len() == gpus@.len(),
            forall|j: int|
                i <= j < gpus@.len() ==> #[trigger] state.subsystem_names@[j] == old(
                    state,
                ).subsystem_names@[j],
            forall|j: int|
                0 <= j < i ==> opt_chars(#[trigger] state.subsystem_names@[j]) == (if pci_target(
                    gpus@[j],
                ) && gpus@[j].vendor_id == pv && gpus@[j].device_id == pd
                    && gpus@[j].subsystem_vendor_id != 0 && gpus@[j].subsystem_device_id != 0
                    && gpus@[j].subsystem_vendor_id == sub_vendor && gpus@[j].subsystem_device_id
                    == sub_device {
                    Some(raw@.subrange(from as int, to as int))
                } else {
                    opt_chars(old(state).subsystem_names@[j])
                }),
        decreases gpus@.len() - i,
    {
        let g = &gpus[i];
        if is_target(g) && g.vendor_id == pv && g.device_id == pd && g.subsystem_vendor_id != 0
            && g.subsystem_device_id != 0 && g.subsystem_vendor_id == sub_vendor
            && g.subsystem_device_id == sub_device {
            state.subsystem_names.set(i, Some(copy_range(raw, from, to)));
        }
        i = i + 1;
    }
}

/// Sets the device name of every target GPU whose identity matches.
fn set_device_names(
    gpus: &Vec<GpuInfo>,
    state: &mut ScanState,
    raw: &[char],
    from: usize,
    to: usize,
    vendor: u16,
    device: u16,
)
    requires
        from <= to <= raw@.len(),
        old(state).device_names@.len() == gpus@.len(),
    ensures
        final(state).vendor == old(state).vendor,
        final(state).device == old(state).device,
        final(state).subsystem_names == old(state).subsystem_names,
        final(state).device_names@.len() == gpus@.len(),
        forall|i: int|
            0 <= i < gpus@.len() ==> opt_chars(#[trigger] final(state).device_names@[i]) == (
            if pci_target(gpus@[i]) && gpus@[i].vendor_id == vendor && gpus@[i].device_id
                == device {
                Some(raw@.subrange(from as int, to as int))
            } else {
                opt_chars(old(state).device_names@[i])
            }),
{
    let mut i: usize = 0;
    while i < gpus.len()
        invariant
            0 <= i <= gpus@.len(),
            from <= to <= raw@.len(),
            state.vendor == old(state).vendor,
            state.device == old(state).device,
            state.subsystem_names == old(state).subsystem_names,
            state.device_names@.len() == gpus@.len(),
            forall|j: int|
                i <= j < gpus@.len() ==> #[trigger] state.device_names@[j] == old(
                    state,
                ).device_names@[j],
            forall|j: int|
                0 <= j < i ==> opt_chars(#[trigger] state.device_names@[j]) == (if pci_target(
                    gpus@[j],
                ) && gpus@[j].vendor_id == vendor && gpus@[j].device_id == device {
                    Some(raw@.subrange(from as int, to as int))
                } else {
                    opt_chars(old(state).device_names@[j])
                }),
        decreases gpus@.len() - i,
    {
        let g = &gpus[i];
        if is_target(g) && g.vendor_id == vendor && g.device_id == device {
            state.device_names.set(i, Some(copy_range(raw, from, to)));
        }
        i = i + 1;
    }
}

/// Applies one database line to the scan state.
fn pci_line(gpus: &Vec<GpuInfo>, state: &mut ScanState, raw: &[char], Ghost(st): Ghost<PciScan>)
    requires
        old(state).matches(st),
        st.device_names.len() == gpus@.len(),
        st.subsystem_names.len() == gpus@.len(),
    ensures
        final(state).matches(pci_step(gpus@, st, raw@)),
{
    let n = line_end_trimmed(raw);
    let ghost line = raw@.take(n as int);
    if n == 0 || raw[0] == '#' {
        return;
    }
    if n >= 2 && raw[0] == 'C' && raw[1] == ' ' {
        assert(line.subrange(0, 2) =~= seq!['C', ' ']);
        state.vendor = None;
        state.device = None;
        return;
    }
    proof {
        if has_at(line, 0, seq!['C', ' ']) {
            assert(line.subrange(0, 2)[0] == line[0]);
            assert(line.subrange(0, 2)[1] == line[1]);
        }
    }
    if n >= 2 && raw[0] == '\t' && raw[1] == '\t' {
        assert(line.subrange(0, 2) =~= seq!['\t', '\t']);
        assert(line.skip(2) =~= raw@.subrange(2, n as int));
        let (sub_vendor, r1) = match take_hex_field(raw, 2, n) {
            Some(x) => x,
            None => {
                return;
            },
        };
        let (sub_device, r2) = match take_hex_field(raw, r1, n) {
            Some(x) => x,
            None => {
                return;
            },
        };
        let (a, b) = trim_bounds(raw, r2, n);
        if a == b {
            return;
        }
        match (state.vendor, state.device) {
            (Some(pv), Some(pd)) => {
                set_subsystem_names(gpus, state, raw, a, b, pv, pd, sub_vendor, sub_device);
                let ghost next = pci_step(gpus@, st, raw@);
                assert(state.matches(next));
            },
            _ => {},
        }
        return;
    }
    proof {
        if has_at(line, 0, seq!['\t', '\t']) {
            assert(line.subrange(0, 2)[0] == line[0]);
            assert(line.subrange(0, 2)[1] == line[1]);
        }
    }
    if raw[0] == '\t' {
        assert(line.subrange(0, 1) =~= seq!['\t']);
        assert(line.skip(1) =~= raw@.subrange(1, n as int));
        let (device, r) = match take_hex_field(raw, 1, n) {
            Some(x) => x,
            None => {
                return;
            },
        };
        state.device = Some(device);
        match state.vendor {
            None => {},
            Some(v) => {
                let (a, b) = trim_bounds(raw, r, n);
                if a != b {
                    set_device_names(gpus, state, raw, a, b, v, device);
                    let ghost next = pci_step(gpus@, st, raw@);
                    assert(state.matches(next));
                }
            },
        }
        return;
    }
    proof {
        if has_at(line, 0, seq!['\t']) {
            assert(line.subrange(0, 1)[0] == line[0]);
        }
    }
    assert(line =~= raw@.subrange(0, n as int));
    state.vendor = match take_hex_field(raw, 0, n) {
        Some((v, _)) => Some(v),
        None => None,
    };
    state.device = None;
}

/// Fills in the name of every GPU that has none yet, from the text of a
/// `pci.ids` database: the subsystem entry matching the GPU's subsystem
/// ids wins over the device entry.
pub fn resolve_pci_names(gpus: &mut Vec<GpuInfo>, database: &str)
    ensures
        final(gpus)@.len() == old(gpus)@.len(),
        forall|i: int|
            0 <= i < old(gpus)@.len() ==> {
                &&& same_but_name(#[trigger] final(gpus)@[i], old(gpus)@[i])
                &&& final(gpus)@[i].name@ == match pci_resolved_name(old(gpus)@, database@, i) {
                    Some(n) => n,
                    None => old(gpus)@[i].name@,
                }
            },
{
    let ghost g0 = gpus@;
    let text = chars_of(database);
    let mut device_names: Vec<Option<Vec<char>>> = Vec::new();
    let mut subsystem_names: Vec<Option<Vec<char>>> = Vec::new();
    let mut k: usize = 0;
    while k < gpus.len()
        invariant
            0 <= k <= gpus@.len(),
            device_names@.len() == k,
            subsystem_names@.len() == k,
            forall|j: int| 0 <= j < k ==> #[trigger] device_names@[j] is None,
            forall|j: int| 0 <= j < k ==> #[trigger] subsystem_names@[j] is None,
        decreases gpus@.len() - k,
    {
        device_names.push(None);
        subsystem_names.push(None);
        k = k + 1;
    }
    let mut state = ScanState { vendor: None, device: None, device_names, subsystem_names };
    let mut line: Vec<char> = Vec::new();
    let mut i: usize = 0;
    proof {
        let init = pci_scan_prefix(g0, text@, 0);
        assert(state.matches(init.0));
        assert(line@ =~= init.1);
    }
    while i < text.len()
        invariant
            0 <= i <= text@.len(),
            text@ == database@,
            gpus@ == g0,
            state.matches(pci_scan_prefix(g0, text@, i as nat).0),
            line@ == pci_scan_prefix(g0, text@, i as nat).1,
            pci_scan_prefix(g0, text@, i as nat).0.device_names.len() == g0.len(),
            pci_scan_prefix(g0, text@, i as nat).0.subsystem_names.len() == g0.len(),
        decreases text@.len() - i,
    {
        let ghost prev = pci_scan_prefix(g0, text@, i as nat);
        if text[i] == '\n' {
            pci_line(gpus, &mut state, line.as_slice(), Ghost(prev.0));
            line = Vec::new();
            assert(line@ =~= pci_scan_prefix(g0, text@, (i + 1) as nat).1);
        } else {
            line.push(text[i]);
        }
        i = i + 1;
    }
    let ghost last = pci_scan_prefix(g0, text@, text@.len());
    pci_line(gpus, &mut state, line.as_slice(), Ghost(last.0));
    let ghost fin = pci_scan(g0, text@);
    let mut j: usize = 0;
    while j < gpus.len()
        invariant
            0 <= j <= gpus@.len(),
            gpus@.len() == g0.len(),
            state.matches(fin),
            fin == pci_scan(g0, database@),
            fin.device_names.len() == g0.len(),
            fin.subsystem_names.len() == g0.len(),
            forall|t: int| j <= t < g0.len() ==> #[trigger] gpus@[t] == g0[t],
            forall|t: int|
                0 <= t < j ==> {
                    &&& same_but_name(#[trigger] gpus@[t], g0[t])
                    &&& gpus@[t].name@ == match pci_resolved_name(g0, database@, t) {
                        Some(n) => n,
                        None => g0[t].name@,
                    }
                },
        decreases gpus@.len() - j,
    {
        let chosen: Option<&Vec<char>> = match &state.subsystem_names[j] {
            Some(n) => Some(n),
            None => match &state.device_names[j] {
                Some(n) => Some(n),
                None => None,
            },
        };
        match chosen {
            Some(n) => {
                let name = string_of(n.as_slice());
                let mut g = gpus.remove(j);
                g.name = name;
                gpus.insert(j, g);
            },
            None => {},
        }
        j = j + 1;
    }
}


// ---------------------------------------------------------------------------
// Descriptions

/// `{:#06x}` of a 16-bit id.
pub open spec fn id_text(v: u16) -> Seq<char> {
    seq!['0', 'x'] + hex_fixed(v as nat, 4)
}

/// Driver (or "unknown"), PCI ids when known, and the resolved name in
/// front when there is one.
pub open spec fn spec_description(g: GpuInfo) -> Seq<char> {
    let driver = if g.driver@.len() == 0 {
        "unknown"@
    } else {
        g.driver@
    };
    let identity = if g.vendor_id == 0 && g.device_id == 0 {
        driver
    } else {
        driver + seq![' '] + id_text(g.vendor_id) + seq![':'] + id_text(g.device_id)
    };
    if g.name@.len() == 0 {
        identity
    } else {
        g.name@ + " — "@ + identity
    }
}

pub fn format_description(g: &GpuInfo) -> (s: String)
    ensures
        s@ == spec_description(*g),
{
    let mut s = String::new();
    let has_name = !g.name.as_str().is_empty();
    if has_name {
        push_str(&mut s, g.name.as_str());
        push_str(&mut s, " — ");
    }
    if g.driver.as_str().is_empty() {
        push_str(&mut s, "unknown");
    } else {
        push_str(&mut s, g.driver.as_str());
    }
    if !(g.vendor_id == 0 && g.device_id == 0) {
        push_char(&mut s, ' ');
        push_str(&mut s, "0x");
        push_hex_fixed(&mut s, g.vendor_id as u64, 4);
        push_char(&mut s, ':');
        push_str(&mut s, "0x");
        push_hex_fixed(&mut s, g.device_id as u64, 4);
    }
    proof {
        reveal_strlit("unknown");
        reveal_strlit(" — ");
        reveal_strlit("0x");
    }
    assert(s@ =~= spec_description(*g));
    s
}

/// Sets every GPU's description from its other fields.
pub fn finish_descriptions(gpus: &mut Vec<GpuInfo>)
    ensures
        final(gpus)@.len() == old(gpus)@.len(),
        forall|i: int|
            0 <= i < old(gpus)@.len() ==> {
                &&& (#[trigger] final(gpus)@[i]).description@ == spec_description(old(gpus)@[i])
                &&& final(gpus)@[i].name == old(gpus)@[i].name
                &&& final(gpus)@[i].driver == old(gpus)@[i].driver
                &&& final(gpus)@[i].render_node == old(gpus)@[i].render_node
                &&& final(gpus)@[i].primary_node == old(gpus)@[i].primary_node
                &&& final(gpus)@[i].render_major == old(gpus)@[i].render_major
                &&& final(gpus)@[i].render_minor == old(gpus)@[i].render_minor
                &&& final(gpus)@[i].primary_major == old(gpus)@[i].primary_major
                &&& final(gpus)@[i].primary_minor == old(gpus)@[i].primary_minor
                &&& final(gpus)@[i].pci_bdf == old(gpus)@[i].pci_bdf
                &&& final(gpus)@[i].vendor_id == old(gpus)@[i].vendor_id
                &&& final(gpus)@[i].device_id == old(gpus)@[i].device_id
                &&& final(gpus)@[i].subsystem_vendor_id == old(gpus)@[i].subsystem_vendor_id
                &&& final(gpus)@[i].subsystem_device_id == old(gpus)@[i].subsystem_device_id
            },
{
    let ghost g0 = gpus@;
    let mut j: usize = 0;
    while j < gpus.len()
        invariant
            0 <= j <= gpus@.len(),
            gpus@.len() == g0.len(),
            forall|t: int| j <= t < g0.len() ==> #[trigger] gpus@[t] == g0[t],
            forall|t: int|
                0 <= t < j ==> {
                    &&& (#[trigger] gpus@[t]).description@ == spec_description(g0[t])
                    &&& gpus@[t].name == g0[t].name
                    &&& gpus@[t].driver == g0[t].driver
                    &&& gpus@[t].render_node == g0[t].render_node
                    &&& gpus@[t].primary_node == g0[t].primary_node
                    &&& gpus@[t].render_major == g0[t].render_major
                    &&& gpus@[t].render_minor == g0[t].render_minor
                    &&& gpus@[t].primary_major == g0[t].primary_major
                    &&& gpus@[t].primary_minor == g0[t].primary_minor
                    &&& gpus@[t].pci_bdf == g0[t].pci_bdf
                    &&& gpus@[t].vendor_id == g0[t].vendor_id
                    &&& gpus@[t].device_id == g0[t].device_id
                    &&& gpus@[t].subsystem_vendor_id == g0[t].subsystem_vendor_id
                    &&& gpus@[t].subsystem_device_id == g0[t].subsystem_device_id
                },
        decreases gpus@.len() - j,
    {
        let description = format_description(&gpus[j]);
        let mut g = gpus.remove(j);
        g.description = description;
        gpus.insert(j, g);
        j = j + 1;
    }
}

/// Completes scanned GPUs: names from the `pci.ids` text when one was
/// found, then descriptions.
pub fn enumerate(scanned: Vec<GpuInfo>, pci_database: Option<&str>) -> (gpus: Vec<GpuInfo>)
    ensures
        gpus@.len() == scanned@.len(),
        forall|i: int|
            0 <= i < scanned@.len() ==> {
                let named = match pci_database {
                    Some(db) => match pci_resolved_name(scanned@, db@, i) {
                        Some(n) => n,
                        None => scanned@[i].name@,
                    },
                    None => scanned@[i].name@,
                };
                &&& (#[trigger] gpus@[i]).name@ == named
                &&& gpus@[i].vendor_id == scanned@[i].vendor_id
                &&& gpus@[i].device_id == scanned@[i].device_id
                &&& gpus@[i].render_node == scanned@[i].render_node
                &&& gpus@[i].render_major == scanned@[i].render_major
                &&& gpus@[i].render_minor == scanned@[i].render_minor
                &&& gpus@[i].driver == scanned@[i].driver
                &&& gpus@[i].description@ == spec_description(
                    GpuInfo { name: gpus@[i].name, ..scanned@[i] },
                )
            },
{
    let mut gpus = scanned;
    let ghost named_gpus = gpus@;
    match pci_database {
        Some(db) => {
            resolve_pci_names(&mut gpus, db);
        },
        None => {},
    }
    let ghost before = gpus@;
    finish_descriptions(&mut gpus);
    assert forall|i: int| 0 <= i < gpus@.len() implies spec_description(before[i])
        == spec_description(GpuInfo { name: gpus@[i].name, ..scanned@[i] }) by {
        assert(before[i].vendor_id == scanned@[i].vendor_id);
    }
    gpus
}
} // verus!
