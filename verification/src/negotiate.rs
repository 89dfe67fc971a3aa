//! Buffer-scheme negotiation between a frame producer (renderer) and a
//! consumer (display): wire decoding of advertised capabilities and the
//! topology-first picker.

use crate::text::{hex_fixed, push_char, push_hex_fixed};
use std::collections::BTreeMap;
use vstd::prelude::*;

verus! {

broadcast use {vstd::std_specs::btree::group_btree_axioms, vstd::laws_cmp::group_laws_cmp};

/// DRM device number of a render node; `0:0` stands for "not known".
#[derive(Debug, Clone, Copy, PartialEq, Eq, Structural)]
pub struct DrmNode {
    pub major: u32,
    pub minor: u32,
}

impl DrmNode {
    /// The node that stands for "not known".
    pub fn unknown() -> (r: DrmNode)
        ensures
            r == (DrmNode { major: 0, minor: 0 }),
            !r.spec_is_known(),
    {
        DrmNode { major: 0, minor: 0 }
    }

    pub open spec fn spec_is_known(self) -> bool {
        self.major != 0 || self.minor != 0
    }

    pub fn is_known(&self) -> (r: bool)
        ensures
            r == self.spec_is_known(),
    {
        self.major != 0 || self.minor != 0
    }
}

/// Per-(fourcc, modifier) capability descriptor.
#[derive(Debug, Clone, Copy, PartialEq, Eq, Structural)]
pub struct ModCap {
    pub modifier: u64,
    pub plane_count: u32,
}

/// fourcc -> modifier capability list.
#[derive(Debug, Clone, Default)]
pub struct FormatCaps {
    pub by_fourcc: BTreeMap<u32, Vec<ModCap>>,
}

/// Producer or consumer device identity; the UUIDs come from Vulkan and
/// the DRM render node is the fallback.
#[derive(Debug, Clone, Copy, PartialEq, Eq)]
pub struct DeviceIdentity {
    pub device_uuid: [u8; 16],
    pub driver_uuid: [u8; 16],
    pub drm: DrmNode,
}

pub open spec fn uuid_is_zero(u: Seq<u8>) -> bool {
    forall|i: int| 0 <= i < u.len() ==> u[i] == 0
}

/// Whether two identities name the same physical GPU: known UUIDs on both
/// sides decide alone; otherwise known DRM nodes on both sides decide.
pub open spec fn spec_same_device(a: DeviceIdentity, b: DeviceIdentity) -> bool {
    if !uuid_is_zero(a.device_uuid@) && !uuid_is_zero(b.device_uuid@) {
        a.device_uuid@ == b.device_uuid@
    } else if a.drm.spec_is_known() && b.drm.spec_is_known() {
        a.drm == b.drm
    } else {
        false
    }
}

fn uuid_zero(u: &[u8; 16]) -> (r: bool)
    ensures
        r == uuid_is_zero(u@),
{
    let mut i: usize = 0;
    while i < 16
        invariant
            0 <= i <= 16,
            u@.len() == 16,
            forall|j: int| 0 <= j < i ==> u@[j] == 0,
        decreases 16 - i,
    {
        if u[i] != 0 {
            return false;
        }
        i = i + 1;
    }
    true
}

fn uuid_equal(a: &[u8; 16], b: &[u8; 16]) -> (r: bool)
    ensures
        r == (a@ == b@),
{
    let mut i: usize = 0;
    while i < 16
        invariant
            0 <= i <= 16,
            a@.len() == 16,
            b@.len() == 16,
            forall|j: int| 0 <= j < i ==> a@[j] == b@[j],
        decreases 16 - i,
    {
        if a[i] != b[i] {
            return false;
        }
        i = i + 1;
    }
    assert(a@ =~= b@);
    true
}

impl DeviceIdentity {
    /// The identity with unknown UUIDs and an unknown DRM node.
    pub fn zero() -> (r: DeviceIdentity)
        ensures
            uuid_is_zero(r.device_uuid@),
            uuid_is_zero(r.driver_uuid@),
            r.device_uuid@.len() == 16,
            r.driver_uuid@.len() == 16,
            r.drm == (DrmNode { major: 0, minor: 0 }),
    {
        DeviceIdentity { device_uuid: [0u8; 16], driver_uuid: [0u8; 16], drm: DrmNode::unknown() }
    }

    /// Whether two identities refer to the same physical GPU.
    pub fn same_device(&self, other: &Self) -> (r: bool)
        ensures
            r == spec_same_device(*self, *other),
    {
        let self_uuid_known = !uuid_zero(&self.device_uuid);
        let other_uuid_known = !uuid_zero(&other.device_uuid);
        if self_uuid_known && other_uuid_known {
            return uuid_equal(&self.device_uuid, &other.device_uuid);
        }
        if self.drm.is_known() && other.drm.is_known() {
            return self.drm == other.drm;
        }
        false
    }
}

/// Combined capability set from a single peer (renderer or consumer).
#[derive(Debug)]
pub struct PeerCaps {
    pub formats: FormatCaps,
    pub identity: DeviceIdentity,
    pub sync: u32,
    pub color: u32,
    pub mem_hint: u32,
    pub extent_max: (u32, u32),
    /// (fourcc, modifier) pairs the peer rejected earlier; every pick
    /// filters them out. Order carries no meaning.
    pub blacklist: Vec<(u32, u64)>,
}

/// Allocation path selected from the producer and consumer topology.
#[derive(Debug, Clone, Copy, PartialEq, Eq, Structural)]
pub enum PathCategory {
    OptimizedSameDevice,
    OptimizedSameVendor,
    CompatLinear,
    CompatCpuReadback,
}

impl PathCategory {
    /// Wire value of the category.
    pub fn wire_value(self) -> (r: u32)
        ensures
            r == match self {
                PathCategory::OptimizedSameDevice => 0u32,
                PathCategory::OptimizedSameVendor => 1u32,
                PathCategory::CompatLinear => 2u32,
                PathCategory::CompatCpuReadback => 3u32,
            },
    {
        match self {
            PathCategory::OptimizedSameDevice => 0,
            PathCategory::OptimizedSameVendor => 1,
            PathCategory::CompatLinear => 2,
            PathCategory::CompatCpuReadback => 3,
        }
    }
}

/// Memory source selected for the allocation path.
#[derive(Debug, Clone, Copy, PartialEq, Eq, Structural)]
pub enum MemSource {
    GpuNative,
    GpuLinear,
    DmabufHeap,
}

impl MemSource {
    /// Wire value of the memory source.
    pub fn wire_value(self) -> (r: u32)
        ensures
            r == match self {
                MemSource::GpuNative => 0u32,
                MemSource::GpuLinear => 1u32,
                MemSource::DmabufHeap => 2u32,
            },
    {
        match self {
            MemSource::GpuNative => 0,
            MemSource::GpuLinear => 1,
            MemSource::DmabufHeap => 2,
        }
    }
}

/// Resolved scheme both peers use until the next renegotiation.
#[derive(Debug, Clone, Copy, PartialEq, Eq, Structural)]
pub struct NegotiatedScheme {
    pub fourcc: u32,
    pub modifier: u64,
    pub plane_count: u32,
    pub sync_mode: u32,
    pub color: u32,
    pub mem_hint: u32,
    pub count: u32,
    pub path: PathCategory,
    pub mem_source: MemSource,
}

#[derive(Debug, Clone, PartialEq, Eq)]
pub enum NegotiateError {
    NoFormatIntersection,
    NoSyncIntersection,
    /// Validation failures from [`unflatten_caps`].
    MalformedCaps(&'static str),
}

pub const MEM_HINT_DEVICE_LOCAL: u32 = 0x1;
pub const MEM_HINT_HOST_VISIBLE: u32 = 0x2;
pub const MEM_HINT_SCANOUT_CAPABLE: u32 = 0x4;
pub const MEM_HINT_PROTECTED: u32 = 0x8;
pub const SYNC_IMPLICIT: u32 = 0x1;
pub const SYNC_SYNCOBJ_BINARY: u32 = 0x2;
pub const SYNC_SYNCOBJ_TIMELINE: u32 = 0x4;

pub const COLOR_ENC_SRGB: u32 = 0x1;
pub const COLOR_ENC_LINEAR: u32 = 0x2;
pub const COLOR_ENC_BT601: u32 = 0x4;
pub const COLOR_ENC_BT709: u32 = 0x8;
pub const COLOR_ENC_BT2020: u32 = 0x10;
pub const COLOR_RANGE_FULL: u32 = 0x20;
pub const COLOR_RANGE_LIMITED: u32 = 0x40;
pub const COLOR_ALPHA_PREMUL: u32 = 0x80;
pub const COLOR_ALPHA_STRAIGHT: u32 = 0x100;

/// sRGB, limited range, premultiplied: used on a color axis whose
/// intersection is empty.
pub const DEFAULT_COLOR: u32 = 0xC1;

pub const DRM_FORMAT_MOD_LINEAR: u64 = 0;
pub const DRM_FORMAT_MOD_INVALID: u64 = 0xffff_ffff_ffff_ffff;

pub const DRM_FORMAT_ABGR8888: u32 = 0x3432_4241;
pub const DRM_FORMAT_XBGR8888: u32 = 0x3432_4258;
pub const DRM_FORMAT_ARGB8888: u32 = 0x3432_5241;
pub const DRM_FORMAT_XRGB8888: u32 = 0x3432_5258;

/// Color sub-axis masks for per-axis intersection.
pub const COLOR_MASK_ENCODING: u32 = 0x1f;
pub const COLOR_MASK_RANGE: u32 = 0x60;
pub const COLOR_MASK_ALPHA: u32 = 0x180;

pub const KNOWN_SYNC_BITS: u32 = 0x7;
pub const KNOWN_COLOR_BITS: u32 = 0x1ff;
pub const KNOWN_MEM_HINT_BITS: u32 = 0xf;

/// Pool size the daemon chooses.
pub const DEFAULT_POOL_COUNT: u32 = 3;

pub const ERR_EMPTY_FOURCCS: &'static str = "fourccs must not be empty";
pub const ERR_COUNTS_LEN: &'static str = "fourccs.len() != mod_counts.len()";
pub const ERR_MODIFIERS_LEN: &'static str = "modifiers.len() != sum(mod_counts)";
pub const ERR_PLANES_LEN: &'static str = "plane_counts.len() != sum(mod_counts)";
pub const ERR_ZERO_COUNT: &'static str = "every fourcc must advertise at least one modifier";
pub const ERR_PLANE_RANGE: &'static str = "plane_count must be in 1..=4";
pub const ERR_UUID_LEN: &'static str = "device_uuid/driver_uuid must be 4×u32 (16 bytes packed LE)";
pub const ERR_SYNC_BITS: &'static str = "sync contains unknown capability bits";
pub const ERR_COLOR_BITS: &'static str = "color contains unknown capability bits";
pub const ERR_MEM_BITS: &'static str = "mem_hint contains unknown capability bits";

// ---------------------------------------------------------------------------
// Decoder model

pub open spec fn sum_counts(s: Seq<u32>) -> int
    decreases s.len(),
{
    if s.len() == 0 {
        0
    } else {
        sum_counts(s.drop_last()) + s.last()
    }
}

/// First modifier index of the i-th fourcc's run in the flat arrays.
pub open spec fn run_offset(counts: Seq<u32>, i: int) -> int {
    sum_counts(counts.take(i))
}

/// The modifier capabilities the i-th fourcc advertises.
pub open spec fn run_caps(counts: Seq<u32>, modifiers: Seq<u64>, planes: Seq<u32>, i: int) -> Seq<
    ModCap,
> {
    Seq::new(
        counts[i] as nat,
        |j: int|
            ModCap {
                modifier: modifiers[run_offset(counts, i) + j],
                plane_count: planes[run_offset(counts, i) + j],
            },
    )
}

/// Where the first capability for `modifier` is in `caps`, if any.
pub open spec fn cap_index(caps: Seq<ModCap>, modifier: u64) -> Option<int>
    decreases caps.len(),
{
    if caps.len() == 0 {
        None
    } else {
        match cap_index(caps.drop_last(), modifier) {
            Some(k) => Some(k),
            None => if caps.last().modifier == modifier {
                Some(caps.len() - 1)
            } else {
                None
            },
        }
    }
}

/// `caps` after `c` is written: it replaces the capability for the same
/// modifier where there is one, and is appended otherwise.
pub open spec fn write_cap(caps: Seq<ModCap>, c: ModCap) -> Seq<ModCap> {
    match cap_index(caps, c.modifier) {
        Some(k) => caps.update(k, c),
        None => caps.push(c),
    }
}

/// `caps` after each of `run` is written in turn.
pub open spec fn write_caps(caps: Seq<ModCap>, run: Seq<ModCap>) -> Seq<ModCap>
    decreases run.len(),
{
    if run.len() == 0 {
        caps
    } else {
        write_cap(write_caps(caps, run.drop_last()), run.last())
    }
}

/// The capabilities advertised for `fourcc` among the first `k` runs: one
/// per modifier, the last one written winning, in the order the modifiers
/// first appeared (a fourcc listed twice has its runs merged).
pub open spec fn merged_caps(
    fourccs: Seq<u32>,
    counts: Seq<u32>,
    modifiers: Seq<u64>,
    planes: Seq<u32>,
    fourcc: u32,
    k: nat,
) -> Seq<ModCap>
    decreases k,
{
    if k == 0 {
        Seq::empty()
    } else {
        let prev = merged_caps(fourccs, counts, modifiers, planes, fourcc, (k - 1) as nat);
        if fourccs[k - 1] == fourcc {
            write_caps(prev, run_caps(counts, modifiers, planes, k - 1))
        } else {
            prev
        }
    }
}

proof fn lemma_cap_index(caps: Seq<ModCap>, modifier: u64)
    ensures
        cap_index(caps, modifier) matches Some(k) ==> 0 <= k < caps.len() && caps[k].modifier == modifier
            && forall|j: int| 0 <= j < k ==> (#[trigger] caps[j]).modifier != modifier,
        cap_index(caps, modifier) is None ==> forall|j: int| 0 <= j < caps.len() ==> (#[trigger] caps[j]).modifier
            != modifier,
    decreases caps.len(),
{
    if caps.len() > 0 {
        let d = caps.drop_last();
        lemma_cap_index(d, modifier);
        assert forall|j: int| 0 <= j < d.len() implies #[trigger] caps[j] == d[j] by {}
    }
}

/// Writes `c` into `caps` as `write_cap` says.
fn write_cap_exec(caps: &mut Vec<ModCap>, c: ModCap)
    ensures
        final(caps)@ == write_cap(old(caps)@, c),
{
    proof {
        lemma_cap_index(caps@, c.modifier);
    }
    let mut k: usize = 0;
    while k < caps.len()
        invariant
            caps@ == old(caps)@,
            0 <= k <= caps@.len(),
            forall|j: int| 0 <= j < k ==> (#[trigger] caps@[j]).modifier != c.modifier,
            cap_index(caps@, c.modifier) matches Some(i) ==> 0 <= i < caps@.len() && caps@[i].modifier
                == c.modifier && forall|j: int| 0 <= j < i ==> (#[trigger] caps@[j]).modifier != c.modifier,
            cap_index(caps@, c.modifier) is None ==> forall|j: int|
                0 <= j < caps@.len() ==> (#[trigger] caps@[j]).modifier != c.modifier,
        decreases caps@.len() - k,
    {
        if caps[k].modifier == c.modifier {
            proof {
                match cap_index(caps@, c.modifier) {
                    Some(i) => {
                        if i < k {
                            assert(caps@[i].modifier != c.modifier);
                        }
                        if i > k {
                            assert(caps@[k as int].modifier != c.modifier);
                        }
                    },
                    None => {
                        assert(caps@[k as int].modifier != c.modifier);
                    },
                }
            }
            caps.set(k, c);
            return;
        }
        k = k + 1;
    }
    proof {
        if let Some(i) = cap_index(caps@, c.modifier) {
            assert(caps@[i].modifier != c.modifier);
        }
    }
    caps.push(c);
}

/// No modifier has two capabilities.
pub open spec fn mods_unique(caps: Seq<ModCap>) -> bool {
    forall|i: int, j: int| 0 <= i < j < caps.len() ==> caps[i].modifier != caps[j].modifier
}

proof fn lemma_write_caps_unique(caps: Seq<ModCap>, run: Seq<ModCap>)
    requires
        mods_unique(caps),
    ensures
        mods_unique(write_caps(caps, run)),
    decreases run.len(),
{
    if run.len() > 0 {
        lemma_write_caps_unique(caps, run.drop_last());
        let w = write_caps(caps, run.drop_last());
        let c = run.last();
        lemma_cap_index(w, c.modifier);
    }
}

/// A decoded format lists each modifier once, with the capability written
/// last for it: a format listed twice on the wire has its runs merged.
pub proof fn law_merged_caps_one_per_modifier(
    fourccs: Seq<u32>,
    counts: Seq<u32>,
    modifiers: Seq<u64>,
    planes: Seq<u32>,
    fourcc: u32,
    k: nat,
)
    ensures
        mods_unique(merged_caps(fourccs, counts, modifiers, planes, fourcc, k)),
    decreases k,
{
    if k > 0 {
        law_merged_caps_one_per_modifier(fourccs, counts, modifiers, planes, fourcc, (k - 1) as nat);
        if fourccs[k - 1] == fourcc {
            lemma_write_caps_unique(
                merged_caps(fourccs, counts, modifiers, planes, fourcc, (k - 1) as nat),
                run_caps(counts, modifiers, planes, k - 1),
            );
        }
    }
}

/// The first schema violation of a wire capability set, if any.
pub open spec fn unflatten_violation(
    fourccs: Seq<u32>,
    counts: Seq<u32>,
    modifiers: Seq<u64>,
    planes: Seq<u32>,
    device_uuid: Seq<u32>,
    driver_uuid: Seq<u32>,
    sync: u32,
    color: u32,
    mem_hint: u32,
) -> Option<&'static str> {
    if fourccs.len() == 0 {
        Some(ERR_EMPTY_FOURCCS)
    } else if fourccs.len() != counts.len() {
        Some(ERR_COUNTS_LEN)
    } else if modifiers.len() != sum_counts(counts) {
        Some(ERR_MODIFIERS_LEN)
    } else if planes.len() != sum_counts(counts) {
        Some(ERR_PLANES_LEN)
    } else if counts.contains(0u32) {
        Some(ERR_ZERO_COUNT)
    } else if exists|i: int| 0 <= i < planes.len() && !(1 <= #[trigger] planes[i] <= 4) {
        Some(ERR_PLANE_RANGE)
    } else if device_uuid.len() != 4 || driver_uuid.len() != 4 {
        Some(ERR_UUID_LEN)
    } else if sync & !KNOWN_SYNC_BITS != 0 {
        Some(ERR_SYNC_BITS)
    } else if color & !KNOWN_COLOR_BITS != 0 {
        Some(ERR_COLOR_BITS)
    } else if mem_hint & !KNOWN_MEM_HINT_BITS != 0 {
        Some(ERR_MEM_BITS)
    } else {
        None
    }
}

/// Little-endian packing of four 32-bit words into sixteen bytes.
pub open spec fn packed_uuid(words: Seq<u32>) -> Seq<u8> {
    Seq::new(16, |k: int| ((words[k / 4] >> (8 * (k % 4)) as u32) & 0xffu32) as u8)
}

proof fn lemma_sum_counts_step(s: Seq<u32>, i: int)
    requires
        0 <= i < s.len(),
    ensures
        sum_counts(s.take(i + 1)) == sum_counts(s.take(i)) + s[i],
{
    assert(s.take(i + 1).drop_last() =~= s.take(i));
}

proof fn lemma_sum_counts_prefix_le(s: Seq<u32>, i: int)
    requires
        0 <= i <= s.len(),
    ensures
        sum_counts(s.take(i)) <= sum_counts(s),
    decreases s.len() - i,
{
    if i == s.len() {
        assert(s.take(i) =~= s);
    } else {
        lemma_sum_counts_step(s, i);
        lemma_sum_counts_prefix_le(s, i + 1);
    }
}

fn pack_uuid_words(words: &[u32]) -> (out: [u8; 16])
    requires
        words@.len() == 4,
    ensures
        out@ == packed_uuid(words@),
{
    let mut out = [0u8; 16];
    let mut k: usize = 0;
    while k < 16
        invariant
            0 <= k <= 16,
            words@.len() == 4,
            out@.len() == 16,
            forall|j: int| 0 <= j < k ==> out@[j] == packed_uuid(words@)[j],
        decreases 16 - k,
    {
        let w = words[k / 4];
        let shift: u32 = (8 * (k % 4)) as u32;
        out[k] = ((w >> shift) & 0xffu32) as u8;
        k = k + 1;
    }
    assert(out@ =~= packed_uuid(words@));
    out
}

fn slice_contains_zero(s: &[u32]) -> (r: bool)
    ensures
        r == s@.contains(0u32),
{
    let mut i: usize = 0;
    while i < s.len()
        invariant
            0 <= i <= s.len(),
            forall|j: int| 0 <= j < i ==> s@[j] != 0u32,
        decreases s.len() - i,
    {
        if s[i] == 0 {
            assert(s@[i as int] == 0u32);
            return true;
        }
        i = i + 1;
    }
    false
}

fn planes_out_of_range(s: &[u32]) -> (r: bool)
    ensures
        r == exists|i: int| 0 <= i < s@.len() && !(1 <= #[trigger] s@[i] <= 4),
{
    let mut i: usize = 0;
    while i < s.len()
        invariant
            0 <= i <= s.len(),
            forall|j: int| 0 <= j < i ==> 1 <= #[trigger] s@[j] <= 4,
        decreases s.len() - i,
    {
        if s[i] < 1 || s[i] > 4 {
            assert(!(1 <= s@[i as int] <= 4));
            return true;
        }
        i = i + 1;
    }
    false
}

/// Sum of the counts, or `None` once it passes `usize::MAX`.
fn total_count(counts: &[u32]) -> (r: Option<usize>)
    ensures
        match r {
            Some(t) => t == sum_counts(counts@),
            None => sum_counts(counts@) > usize::MAX,
        },
{
    let mut total: usize = 0;
    let mut i: usize = 0;
    while i < counts.len()
        invariant
            0 <= i <= counts.len(),
            total == sum_counts(counts@.take(i as int)),
        decreases counts.len() - i,
    {
        proof {
            lemma_sum_counts_step(counts@, i as int);
        }
        match total.checked_add(counts[i] as usize) {
            Some(t) => {
                total = t;
            },
            None => {
                proof {
                    lemma_sum_counts_prefix_le(counts@, i + 1);
                }
                return None;
            },
        }
        i = i + 1;
    }
    assert(counts@.take(counts@.len() as int) =~= counts@);
    Some(total)
}

/// Decodes the parallel wire arrays into a [`PeerCaps`]: the single place
/// where every length invariant the picker relies on is checked.
pub fn unflatten_caps(
    fourccs: &[u32],
    mod_counts: &[u32],
    modifiers: &[u64],
    plane_counts: &[u32],
    device_uuid: &[u32],
    driver_uuid: &[u32],
    drm: DrmNode,
    sync: u32,
    color: u32,
    mem_hint: u32,
    extent_max: (u32, u32),
) -> (res: Result<PeerCaps, NegotiateError>)
    ensures
        match unflatten_violation(
            fourccs@,
            mod_counts@,
            modifiers@,
            plane_counts@,
            device_uuid@,
            driver_uuid@,
            sync,
            color,
            mem_hint,
        ) {
            Some(msg) => res == Err::<PeerCaps, NegotiateError>(NegotiateError::MalformedCaps(msg)),
            None => res matches Ok(caps) && {
                &&& forall|f: u32| #[trigger]
                    caps.formats.by_fourcc@.contains_key(f) <==> fourccs@.contains(f)
                &&& forall|f: u32| #[trigger]
                    caps.formats.by_fourcc@.contains_key(f) ==> caps.formats.by_fourcc@[f]@
                        == merged_caps(
                        fourccs@,
                        mod_counts@,
                        modifiers@,
                        plane_counts@,
                        f,
                        fourccs@.len(),
                    )
                &&& caps.identity.device_uuid@ == packed_uuid(device_uuid@)
                &&& caps.identity.driver_uuid@ == packed_uuid(driver_uuid@)
                &&& caps.identity.drm == drm
                &&& caps.sync == sync
                &&& caps.color == color
                &&& caps.mem_hint == mem_hint
                &&& caps.extent_max == extent_max
                &&& caps.blacklist@.len() == 0
            },
        },
{
    if fourccs.len() == 0 {
        return Err(NegotiateError::MalformedCaps(ERR_EMPTY_FOURCCS));
    }
    if fourccs.len() != mod_counts.len() {
        return Err(NegotiateError::MalformedCaps(ERR_COUNTS_LEN));
    }
    let modifiers_len = modifiers.len();
    let total = match total_count(mod_counts) {
        Some(t) => t,
        None => {
            return Err(NegotiateError::MalformedCaps(ERR_MODIFIERS_LEN));
        },
    };
    if modifiers.len() != total {
        return Err(NegotiateError::MalformedCaps(ERR_MODIFIERS_LEN));
    }
    if plane_counts.len() != total {
        return Err(NegotiateError::MalformedCaps(ERR_PLANES_LEN));
    }
    if slice_contains_zero(mod_counts) {
        return Err(NegotiateError::MalformedCaps(ERR_ZERO_COUNT));
    }
    if planes_out_of_range(plane_counts) {
        return Err(NegotiateError::MalformedCaps(ERR_PLANE_RANGE));
    }
    if device_uuid.len() != 4 || driver_uuid.len() != 4 {
        return Err(NegotiateError::MalformedCaps(ERR_UUID_LEN));
    }
    if sync & !KNOWN_SYNC_BITS != 0 {
        return Err(NegotiateError::MalformedCaps(ERR_SYNC_BITS));
    }
    if color & !KNOWN_COLOR_BITS != 0 {
        return Err(NegotiateError::MalformedCaps(ERR_COLOR_BITS));
    }
    if mem_hint & !KNOWN_MEM_HINT_BITS != 0 {
        return Err(NegotiateError::MalformedCaps(ERR_MEM_BITS));
    }

    let ghost fs = fourccs@;
    let ghost cs = mod_counts@;
    let ghost ms = modifiers@;
    let ghost ps = plane_counts@;
    let mut by_fourcc: BTreeMap<u32, Vec<ModCap>> = BTreeMap::new();
    let mut cursor: usize = 0;
    let mut i: usize = 0;
    while i < fourccs.len()
        invariant
            fs == fourccs@,
            cs == mod_counts@,
            ms == modifiers@,
            ps == plane_counts@,
            0 <= i <= fs.len(),
            fs.len() == cs.len(),
            ms.len() == sum_counts(cs),
            ps.len() == sum_counts(cs),
            ms.len() <= usize::MAX,
            cursor == run_offset(cs, i as int),
            forall|f: u32| #[trigger]
                by_fourcc@.contains_key(f) <==> fs.take(i as int).contains(f),
            forall|f: u32| #[trigger]
                by_fourcc@.contains_key(f) ==> by_fourcc@[f]@ == merged_caps(
                    fs,
                    cs,
                    ms,
                    ps,
                    f,
                    i as nat,
                ),
        decreases fs.len() - i,
    {
        let fourcc = fourccs[i];
        let n = mod_counts[i] as usize;
        proof {
            lemma_sum_counts_step(cs, i as int);
            lemma_sum_counts_prefix_le(cs, i + 1);
        }
        let mut caps: Vec<ModCap> = match by_fourcc.remove(&fourcc) {
            Some(v) => v,
            None => Vec::new(),
        };
        let ghost before = caps@;
        assert(run_caps(cs, ms, ps, i as int).take(0) =~= Seq::<ModCap>::empty());
        assert(before == merged_caps(fs, cs, ms, ps, fourcc, i as nat)) by {
            if !fs.take(i as int).contains(fourcc) {
                lemma_merged_absent(fs, cs, ms, ps, fourcc, i as nat);
            }
        }
        let mut j: usize = 0;
        while j < n
            invariant
                ms == modifiers@,
                ps == plane_counts@,
                0 <= j <= n,
                n == cs[i as int],
                0 <= i < cs.len(),
                cursor == run_offset(cs, i as int),
                cursor + n <= ms.len(),
                cursor + n <= ps.len(),
                ms.len() <= usize::MAX,
                caps@ == write_caps(before, run_caps(cs, ms, ps, i as int).take(j as int)),
            decreases n - j,
        {
            write_cap_exec(&mut caps, ModCap { modifier: modifiers[cursor + j], plane_count: plane_counts[cursor + j] });
            assert(run_caps(cs, ms, ps, i as int).take(j + 1).drop_last() =~= run_caps(cs, ms, ps, i as int).take(
                j as int,
            ));
            j = j + 1;
        }
        assert(run_caps(cs, ms, ps, i as int).take(n as int) =~= run_caps(cs, ms, ps, i as int));
        cursor = cursor + n;
        by_fourcc.insert(fourcc, caps);
        i = i + 1;
        proof {
            assert(fs.take(i as int) =~= fs.take(i - 1).push(fourcc));
            assert forall|f: u32| #[trigger]
                by_fourcc@.contains_key(f) <==> fs.take(i as int).contains(f) by {
                let t = fs.take(i - 1);
                if f == fourcc {
                    assert(fs.take(i as int)[i - 1] == fourcc);
                } else if fs.take(i as int).contains(f) {
                    let w = choose|w: int| 0 <= w < i && #[trigger] fs.take(i as int)[w] == f;
                    assert(t[w] == f);
                } else if t.contains(f) {
                    let w = choose|w: int| 0 <= w < t.len() && #[trigger] t[w] == f;
                    assert(fs.take(i as int)[w] == f);
                }
            }
            assert forall|f: u32| #[trigger] by_fourcc@.contains_key(f) implies by_fourcc@[f]@
                == merged_caps(fs, cs, ms, ps, f, i as nat) by {
                if f != fourcc {
                    assert(merged_caps(fs, cs, ms, ps, f, i as nat) == merged_caps(
                        fs,
                        cs,
                        ms,
                        ps,
                        f,
                        (i - 1) as nat,
                    ));
                }
            }
        }
    }
    assert(fs.take(fs.len() as int) =~= fs);
    let identity = DeviceIdentity {
        device_uuid: pack_uuid_words(device_uuid),
        driver_uuid: pack_uuid_words(driver_uuid),
        drm,
    };
    Ok(
        PeerCaps {
            formats: FormatCaps { by_fourcc },
            identity,
            sync,
            color,
            mem_hint,
            extent_max,
            blacklist: Vec::new(),
        },
    )
}

proof fn lemma_merged_absent(
    fs: Seq<u32>,
    cs: Seq<u32>,
    ms: Seq<u64>,
    ps: Seq<u32>,
    f: u32,
    k: nat,
)
    requires
        k <= fs.len(),
        !fs.take(k as int).contains(f),
    ensures
        merged_caps(fs, cs, ms, ps, f, k) == Seq::<ModCap>::empty(),
    decreases k,
{
    if k > 0 {
        assert(fs.take(k as int)[k - 1] == fs[k - 1]);
        assert(fs.take((k - 1) as int) =~= fs.take(k as int).take((k - 1) as int));
        let t = fs.take((k - 1) as int);
        if t.contains(f) {
            let w = choose|w: int| 0 <= w < t.len() && #[trigger] t[w] == f;
            assert(fs.take(k as int)[w] == f);
        }
        lemma_merged_absent(fs, cs, ms, ps, f, (k - 1) as nat);
    }
}


// ---------------------------------------------------------------------------
// Picker model

/// Modifiers of one fourcc that neither side blacklists and the consumer
/// advertises with the same plane count.
pub open spec fn usable_mod(
    fourcc: u32,
    c_mods: Seq<ModCap>,
    p_blacklist: Seq<(u32, u64)>,
    c_blacklist: Seq<(u32, u64)>,
) -> spec_fn(ModCap) -> bool {
    |m: ModCap|
        !p_blacklist.contains((fourcc, m.modifier)) && !c_blacklist.contains((fourcc, m.modifier))
            && c_mods.contains(m)
}

/// Modifier intersection of one fourcc, in producer order.
pub open spec fn common_mods(
    fourcc: u32,
    p_mods: Seq<ModCap>,
    c_mods: Seq<ModCap>,
    p_blacklist: Seq<(u32, u64)>,
    c_blacklist: Seq<(u32, u64)>,
) -> Seq<ModCap> {
    p_mods.filter(usable_mod(fourcc, c_mods, p_blacklist, c_blacklist))
}

pub open spec fn is_non_linear() -> spec_fn(ModCap) -> bool {
    |m: ModCap| m.modifier != DRM_FORMAT_MOD_LINEAR
}

pub open spec fn is_linear() -> spec_fn(ModCap) -> bool {
    |m: ModCap| m.modifier == DRM_FORMAT_MOD_LINEAR
}

pub open spec fn first_match(s: Seq<ModCap>, pred: spec_fn(ModCap) -> bool) -> Option<ModCap> {
    let f = s.filter(pred);
    if f.len() > 0 {
        Some(f[0])
    } else {
        None
    }
}

/// The modifier a fourcc contributes under `pred` (first in producer order),
/// if both sides advertise the fourcc.
pub open spec fn fourcc_candidate(
    p: Map<u32, Vec<ModCap>>,
    c: Map<u32, Vec<ModCap>>,
    p_blacklist: Seq<(u32, u64)>,
    c_blacklist: Seq<(u32, u64)>,
    fourcc: u32,
    pred: spec_fn(ModCap) -> bool,
) -> Option<ModCap> {
    if p.contains_key(fourcc) && c.contains_key(fourcc) {
        first_match(common_mods(fourcc, p[fourcc]@, c[fourcc]@, p_blacklist, c_blacklist), pred)
    } else {
        None
    }
}

/// `fourcc` is the least fourcc with a candidate under `pred`.
pub open spec fn least_candidate(
    p: Map<u32, Vec<ModCap>>,
    c: Map<u32, Vec<ModCap>>,
    p_blacklist: Seq<(u32, u64)>,
    c_blacklist: Seq<(u32, u64)>,
    fourcc: u32,
    pred: spec_fn(ModCap) -> bool,
) -> bool {
    &&& fourcc_candidate(p, c, p_blacklist, c_blacklist, fourcc, pred) is Some
    &&& forall|g: u32|
        #[trigger] fourcc_candidate(p, c, p_blacklist, c_blacklist, g, pred) is Some ==> fourcc <= g
}

/// Same-device format choice: the least fourcc offering a non-LINEAR common
/// modifier wins; only when no fourcc offers one does the least fourcc with
/// a common LINEAR modifier win.
pub open spec fn same_device_choice(
    p: Map<u32, Vec<ModCap>>,
    c: Map<u32, Vec<ModCap>>,
    p_blacklist: Seq<(u32, u64)>,
    c_blacklist: Seq<(u32, u64)>,
    r: Result<(u32, u64, u32), NegotiateError>,
) -> bool {
    let any_nl = exists|g: u32|
        #[trigger] fourcc_candidate(p, c, p_blacklist, c_blacklist, g, is_non_linear()) is Some;
    let any_lin = exists|g: u32|
        #[trigger] fourcc_candidate(p, c, p_blacklist, c_blacklist, g, is_linear()) is Some;
    match r {
        Ok((f, m, pc)) => if any_nl {
            &&& least_candidate(p, c, p_blacklist, c_blacklist, f, is_non_linear())
            &&& fourcc_candidate(p, c, p_blacklist, c_blacklist, f, is_non_linear()) == Some(
                ModCap { modifier: m, plane_count: pc },
            )
        } else {
            &&& least_candidate(p, c, p_blacklist, c_blacklist, f, is_linear())
            &&& fourcc_candidate(p, c, p_blacklist, c_blacklist, f, is_linear()) == Some(
                ModCap { modifier: m, plane_count: pc },
            )
        },
        Err(e) => !any_nl && !any_lin && e == NegotiateError::NoFormatIntersection,
    }
}

/// Cross-device fourccs: advertised by both sides with LINEAR blacklisted by
/// neither.
pub open spec fn linear_fourcc_ok(
    p: Map<u32, Vec<ModCap>>,
    c: Map<u32, Vec<ModCap>>,
    p_blacklist: Seq<(u32, u64)>,
    c_blacklist: Seq<(u32, u64)>,
    fourcc: u32,
) -> bool {
    &&& p.contains_key(fourcc)
    &&& c.contains_key(fourcc)
    &&& !p_blacklist.contains((fourcc, DRM_FORMAT_MOD_LINEAR))
    &&& !c_blacklist.contains((fourcc, DRM_FORMAT_MOD_LINEAR))
}

/// Cross-device choice: the least acceptable fourcc.
pub open spec fn fourcc_only_choice(
    p: Map<u32, Vec<ModCap>>,
    c: Map<u32, Vec<ModCap>>,
    p_blacklist: Seq<(u32, u64)>,
    c_blacklist: Seq<(u32, u64)>,
    r: Result<u32, NegotiateError>,
) -> bool {
    match r {
        Ok(f) => {
            &&& linear_fourcc_ok(p, c, p_blacklist, c_blacklist, f)
            &&& forall|g: u32| #[trigger] linear_fourcc_ok(p, c, p_blacklist, c_blacklist, g) ==> f <= g
        },
        Err(e) => {
            &&& forall|g: u32| !#[trigger] linear_fourcc_ok(p, c, p_blacklist, c_blacklist, g)
            &&& e == NegotiateError::NoFormatIntersection
        },
    }
}

/// Sync mode: the highest-priority common bit (timeline, binary, implicit).
pub open spec fn spec_pick_sync(producer: u32, consumer: u32) -> Result<u32, NegotiateError> {
    let common = producer & consumer;
    if common == 0 {
        Err(NegotiateError::NoSyncIntersection)
    } else if common & SYNC_SYNCOBJ_TIMELINE != 0 {
        Ok(SYNC_SYNCOBJ_TIMELINE)
    } else if common & SYNC_SYNCOBJ_BINARY != 0 {
        Ok(SYNC_SYNCOBJ_BINARY)
    } else {
        Ok(SYNC_IMPLICIT)
    }
}

/// The lowest set bit of `x` (zero for zero).
pub open spec fn lowest_bit(x: u32) -> u32 {
    x & ((!x + 1) as u32)
}

pub open spec fn pick_axis(intersect: u32, mask: u32) -> u32 {
    let common = intersect & mask;
    if common != 0 {
        lowest_bit(common)
    } else {
        DEFAULT_COLOR & mask
    }
}

/// Per-axis color choice: the lowest common bit of each axis, or the
/// default's bits on an axis with nothing in common.
pub open spec fn spec_pick_color(producer: u32, consumer: u32) -> u32 {
    let i = producer & consumer;
    pick_axis(i, COLOR_MASK_ENCODING) | pick_axis(i, COLOR_MASK_RANGE) | pick_axis(
        i,
        COLOR_MASK_ALPHA,
    )
}

/// Memory hint on a single device: DEVICE_LOCAL, then HOST_VISIBLE, then
/// whatever else is common, else HOST_VISIBLE.
pub open spec fn spec_pick_mem_hint(producer: u32, consumer: u32) -> u32 {
    let common = producer & consumer;
    if common & MEM_HINT_DEVICE_LOCAL != 0 {
        MEM_HINT_DEVICE_LOCAL
    } else if common & MEM_HINT_HOST_VISIBLE != 0 {
        MEM_HINT_HOST_VISIBLE
    } else if common != 0 {
        common
    } else {
        MEM_HINT_HOST_VISIBLE
    }
}

fn bl_contains(bl: &Vec<(u32, u64)>, fourcc: u32, modifier: u64) -> (r: bool)
    ensures
        r == bl@.contains((fourcc, modifier)),
{
    let mut i: usize = 0;
    while i < bl.len()
        invariant
            0 <= i <= bl@.len(),
            forall|k: int| 0 <= k < i ==> bl@[k] != (fourcc, modifier),
        decreases bl@.len() - i,
    {
        let (f, m) = bl[i];
        if f == fourcc && m == modifier {
            assert(bl@[i as int] == (fourcc, modifier));
            return true;
        }
        i = i + 1;
    }
    false
}

/// Whether the consumer offers `pc` on `fourcc` without blacklisting it.
fn consumer_accepts(fourcc: u32, pc: ModCap, c_mods: &Vec<ModCap>, c_blacklist: &Vec<(u32, u64)>) -> (r:
    bool)
    ensures
        r == (!c_blacklist@.contains((fourcc, pc.modifier)) && c_mods@.contains(pc)),
{
    let mut k: usize = 0;
    while k < c_mods.len()
        invariant
            0 <= k <= c_mods@.len(),
            forall|j: int|
                0 <= j < k ==> !(c_mods@[j] == pc && !c_blacklist@.contains(
                    (fourcc, c_mods@[j].modifier),
                )),
        decreases c_mods@.len() - k,
    {
        let cc = c_mods[k];
        if bl_contains(c_blacklist, fourcc, cc.modifier) {
            k = k + 1;
            continue;
        }
        if pc.modifier == cc.modifier {
            if pc.plane_count != cc.plane_count {
                k = k + 1;
                continue;
            }
            assert(c_mods@[k as int] == pc);
            return true;
        }
        k = k + 1;
    }
    proof {
        if c_mods@.contains(pc) {
            let j = choose|j: int| 0 <= j < c_mods@.len() && c_mods@[j] == pc;
            assert(c_blacklist@.contains((fourcc, c_mods@[j].modifier)));
        }
    }
    false
}

/// First non-LINEAR and first LINEAR modifier of one fourcc's intersection.
fn fourcc_candidates(
    fourcc: u32,
    p_mods: &Vec<ModCap>,
    c_mods: &Vec<ModCap>,
    p_blacklist: &Vec<(u32, u64)>,
    c_blacklist: &Vec<(u32, u64)>,
) -> (r: (Option<ModCap>, Option<ModCap>))
    ensures
        r.0 == first_match(
            common_mods(fourcc, p_mods@, c_mods@, p_blacklist@, c_blacklist@),
            is_non_linear(),
        ),
        r.1 == first_match(
            common_mods(fourcc, p_mods@, c_mods@, p_blacklist@, c_blacklist@),
            is_linear(),
        ),
{
    let ghost keep = usable_mod(fourcc, c_mods@, p_blacklist@, c_blacklist@);
    let ghost mut common: Seq<ModCap> = Seq::empty();
    let mut first_nl: Option<ModCap> = None;
    let mut first_lin: Option<ModCap> = None;
    let mut i: usize = 0;
    while i < p_mods.len()
        invariant
            0 <= i <= p_mods@.len(),
            keep == usable_mod(fourcc, c_mods@, p_blacklist@, c_blacklist@),
            common == p_mods@.take(i as int).filter(keep),
            first_nl == first_match(common, is_non_linear()),
            first_lin == first_match(common, is_linear()),
        decreases p_mods@.len() - i,
    {
        let pc = p_mods[i];
        proof {
            assert(p_mods@.take(i + 1) =~= p_mods@.take(i as int).push(pc));
            p_mods@.take(i as int).lemma_filter_push(pc, keep);
        }
        if !bl_contains(p_blacklist, fourcc, pc.modifier) && consumer_accepts(
            fourcc,
            pc,
            c_mods,
            c_blacklist,
        ) {
            proof {
                common.lemma_filter_push(pc, is_non_linear());
                common.lemma_filter_push(pc, is_linear());
                common = common.push(pc);
            }
            if pc.modifier != DRM_FORMAT_MOD_LINEAR {
                if first_nl.is_none() {
                    first_nl = Some(pc);
                }
            } else {
                if first_lin.is_none() {
                    first_lin = Some(pc);
                }
            }
        }
        i = i + 1;
    }
    assert(p_mods@.take(p_mods@.len() as int) =~= p_mods@);
    (first_nl, first_lin)
}

fn pick_format_same_device(
    producer: &FormatCaps,
    consumer: &FormatCaps,
    p_blacklist: &Vec<(u32, u64)>,
    c_blacklist: &Vec<(u32, u64)>,
) -> (r: Result<(u32, u64, u32), NegotiateError>)
    ensures
        same_device_choice(
            producer.by_fourcc@,
            consumer.by_fourcc@,
            p_blacklist@,
            c_blacklist@,
            r,
        ),
{
    let ghost p = producer.by_fourcc@;
    let ghost c = consumer.by_fourcc@;
    let ghost pbl = p_blacklist@;
    let ghost cbl = c_blacklist@;
    let mut best_non_linear: Option<(u32, u64, u32)> = None;
    let mut linear_fallback: Option<(u32, u64, u32)> = None;
    for (fourcc, p_mods) in it: producer.by_fourcc.iter()
        invariant
            p == producer.by_fourcc@,
            c == consumer.by_fourcc@,
            pbl == p_blacklist@,
            cbl == c_blacklist@,
            it.seq().len() == p.dom().len(),
            forall|i: int|
                0 <= i < it.seq().len() ==> p.contains_key(*it.seq()[i].0) && p[*it.seq()[i].0]
                    == *it.seq()[i].1,
            forall|k: u32| #[trigger]
                p.contains_key(k) ==> exists|i: int|
                    0 <= i < it.seq().len() && *it.seq()[i].0 == k,
            match best_non_linear {
                Some((bf, bm, bp)) => {
                    &&& fourcc_candidate(p, c, pbl, cbl, bf, is_non_linear()) == Some(
                        ModCap { modifier: bm, plane_count: bp },
                    )
                    &&& forall|i: int|
                        0 <= i < it.index() && (#[trigger] fourcc_candidate(
                            p,
                            c,
                            pbl,
                            cbl,
                            *it.seq()[i].0,
                            is_non_linear(),
                        )) is Some ==> bf <= *it.seq()[i].0
                },
                None => forall|i: int|
                    0 <= i < it.index() ==> (#[trigger] fourcc_candidate(
                        p,
                        c,
                        pbl,
                        cbl,
                        *it.seq()[i].0,
                        is_non_linear(),
                    )) is None,
            },
            match linear_fallback {
                Some((lf, lm, lp)) => {
                    &&& fourcc_candidate(p, c, pbl, cbl, lf, is_linear()) == Some(
                        ModCap { modifier: lm, plane_count: lp },
                    )
                    &&& forall|i: int|
                        0 <= i < it.index() && fourcc_candidate(
                            p,
                            c,
                            pbl,
                            cbl,
                            *it.seq()[i].0,
                            is_non_linear(),
                        ) is None && (#[trigger] fourcc_candidate(
                            p,
                            c,
                            pbl,
                            cbl,
                            *it.seq()[i].0,
                            is_linear(),
                        )) is Some ==> lf <= *it.seq()[i].0
                },
                None => forall|i: int|
                    0 <= i < it.index() && fourcc_candidate(
                        p,
                        c,
                        pbl,
                        cbl,
                        *it.seq()[i].0,
                        is_non_linear(),
                    ) is None ==> (#[trigger] fourcc_candidate(
                        p,
                        c,
                        pbl,
                        cbl,
                        *it.seq()[i].0,
                        is_linear(),
                    )) is None,
            },
            it.index() == it.seq().len() ==> forall|g: u32|
                (#[trigger] fourcc_candidate(p, c, pbl, cbl, g, is_non_linear())) is Some ==> (
                match best_non_linear {
                    Some((bf, bm, bp)) => bf <= g,
                    None => false,
                }),
            it.index() == it.seq().len() ==> forall|g: u32|
                fourcc_candidate(p, c, pbl, cbl, g, is_non_linear()) is None && (
                #[trigger] fourcc_candidate(p, c, pbl, cbl, g, is_linear())) is Some ==> (
                match linear_fallback {
                    Some((lf, lm, lp)) => lf <= g,
                    None => false,
                }),
    {
        let fourcc = *fourcc;
        match consumer.by_fourcc.get(&fourcc) {
            None => {
                assert(fourcc_candidate(p, c, pbl, cbl, fourcc, is_non_linear()) is None);
                assert(fourcc_candidate(p, c, pbl, cbl, fourcc, is_linear()) is None);
            },
            Some(c_mods) => {
                let (nl, lin) = fourcc_candidates(fourcc, p_mods, c_mods, p_blacklist, c_blacklist);
                match nl {
                    Some(m) => {
                        let better = match best_non_linear {
                            Some((prev, _, _)) => fourcc < prev,
                            None => true,
                        };
                        if better {
                            best_non_linear = Some((fourcc, m.modifier, m.plane_count));
                        }
                    },
                    None => {
                        match lin {
                            Some(m) => {
                                let better = match linear_fallback {
                                    Some((prev, _, _)) => fourcc < prev,
                                    None => true,
                                };
                                if better {
                                    linear_fallback = Some(
                                        (fourcc, DRM_FORMAT_MOD_LINEAR, m.plane_count),
                                    );
                                }
                            },
                            None => {},
                        }
                    },
                }
            },
        }
    }
    match best_non_linear {
        Some(b) => Ok(b),
        None => match linear_fallback {
            Some(l) => Ok(l),
            None => Err(NegotiateError::NoFormatIntersection),
        },
    }
}

fn pick_fourcc_only(
    producer: &FormatCaps,
    consumer: &FormatCaps,
    p_blacklist: &Vec<(u32, u64)>,
    c_blacklist: &Vec<(u32, u64)>,
) -> (r: Result<u32, NegotiateError>)
    ensures
        fourcc_only_choice(producer.by_fourcc@, consumer.by_fourcc@, p_blacklist@, c_blacklist@, r),
{
    let ghost p = producer.by_fourcc@;
    let ghost c = consumer.by_fourcc@;
    let ghost pbl = p_blacklist@;
    let ghost cbl = c_blacklist@;
    let mut best: Option<u32> = None;
    for (fourcc, _p_mods) in it: producer.by_fourcc.iter()
        invariant
            p == producer.by_fourcc@,
            c == consumer.by_fourcc@,
            pbl == p_blacklist@,
            cbl == c_blacklist@,
            it.seq().len() == p.dom().len(),
            forall|i: int| 0 <= i < it.seq().len() ==> p.contains_key(*it.seq()[i].0),
            forall|k: u32| #[trigger]
                p.contains_key(k) ==> exists|i: int|
                    0 <= i < it.seq().len() && *it.seq()[i].0 == k,
            match best {
                Some(b) => {
                    &&& linear_fourcc_ok(p, c, pbl, cbl, b)
                    &&& forall|i: int|
                        0 <= i < it.index() && #[trigger] linear_fourcc_ok(
                            p,
                            c,
                            pbl,
                            cbl,
                            *it.seq()[i].0,
                        ) ==> b <= *it.seq()[i].0
                },
                None => forall|i: int|
                    0 <= i < it.index() ==> !#[trigger] linear_fourcc_ok(
                        p,
                        c,
                        pbl,
                        cbl,
                        *it.seq()[i].0,
                    ),
            },
            it.index() == it.seq().len() ==> forall|g: u32| #[trigger]
                linear_fourcc_ok(p, c, pbl, cbl, g) ==> (match best {
                    Some(b) => b <= g,
                    None => false,
                }),
    {
        let fourcc = *fourcc;
        if consumer.by_fourcc.contains_key(&fourcc) && !bl_contains(
            p_blacklist,
            fourcc,
            DRM_FORMAT_MOD_LINEAR,
        ) && !bl_contains(c_blacklist, fourcc, DRM_FORMAT_MOD_LINEAR) {
            let better = match best {
                Some(b) => fourcc < b,
                None => true,
            };
            if better {
                best = Some(fourcc);
            }
        }
    }
    match best {
        Some(b) => Ok(b),
        None => Err(NegotiateError::NoFormatIntersection),
    }
}

fn pick_sync(producer: u32, consumer: u32) -> (r: Result<u32, NegotiateError>)
    ensures
        r == spec_pick_sync(producer, consumer),
{
    let common = producer & consumer;
    if common == 0 {
        return Err(NegotiateError::NoSyncIntersection);
    }
    if common & SYNC_SYNCOBJ_TIMELINE != 0 {
        Ok(SYNC_SYNCOBJ_TIMELINE)
    } else if common & SYNC_SYNCOBJ_BINARY != 0 {
        Ok(SYNC_SYNCOBJ_BINARY)
    } else {
        Ok(SYNC_IMPLICIT)
    }
}

fn pick_axis_exec(intersect: u32, mask: u32) -> (r: u32)
    ensures
        r == pick_axis(intersect, mask),
{
    let common = intersect & mask;
    if common != 0 {
        let inverted = !common;
        assert(inverted < 0xffff_ffffu32) by (bit_vector)
            requires
                common != 0,
                inverted == !common,
        ;
        common & (inverted + 1)
    } else {
        DEFAULT_COLOR & mask
    }
}

fn pick_color(producer: u32, consumer: u32) -> (r: u32)
    ensures
        r == spec_pick_color(producer, consumer),
{
    let intersect = producer & consumer;
    pick_axis_exec(intersect, COLOR_MASK_ENCODING) | pick_axis_exec(intersect, COLOR_MASK_RANGE)
        | pick_axis_exec(intersect, COLOR_MASK_ALPHA)
}

fn pick_mem_hint_same_dev(producer: u32, consumer: u32) -> (r: u32)
    ensures
        r == spec_pick_mem_hint(producer, consumer),
{
    let common = producer & consumer;
    if common & MEM_HINT_DEVICE_LOCAL != 0 {
        MEM_HINT_DEVICE_LOCAL
    } else if common & MEM_HINT_HOST_VISIBLE != 0 {
        MEM_HINT_HOST_VISIBLE
    } else if common != 0 {
        common
    } else {
        MEM_HINT_HOST_VISIBLE
    }
}

/// Picks a buffer scheme for a producer/consumer pair. Sync is decided
/// first; same-device pairs then take the least fourcc with a preferred
/// (non-LINEAR, else LINEAR) common modifier, cross-device pairs the least
/// common fourcc on the LINEAR path.
pub fn pick(producer: &PeerCaps, consumer: &PeerCaps) -> (r: Result<NegotiatedScheme, NegotiateError>)
    ensures
        match r {
            Ok(s) => {
                &&& spec_pick_sync(producer.sync, consumer.sync) == Ok::<u32, NegotiateError>(
                    s.sync_mode,
                )
                &&& s.color == spec_pick_color(producer.color, consumer.color)
                &&& s.count == DEFAULT_POOL_COUNT
                &&& spec_same_device(producer.identity, consumer.identity) ==> {
                    &&& same_device_choice(
                        producer.formats.by_fourcc@,
                        consumer.formats.by_fourcc@,
                        producer.blacklist@,
                        consumer.blacklist@,
                        Ok((s.fourcc, s.modifier, s.plane_count)),
                    )
                    &&& s.mem_hint == spec_pick_mem_hint(producer.mem_hint, consumer.mem_hint)
                    &&& s.modifier == DRM_FORMAT_MOD_LINEAR ==> s.path == PathCategory::CompatLinear
                        && s.mem_source == MemSource::GpuLinear
                    &&& s.modifier != DRM_FORMAT_MOD_LINEAR ==> s.path
                        == PathCategory::OptimizedSameDevice && s.mem_source == MemSource::GpuNative
                }
                &&& !spec_same_device(producer.identity, consumer.identity) ==> {
                    &&& fourcc_only_choice(
                        producer.formats.by_fourcc@,
                        consumer.formats.by_fourcc@,
                        producer.blacklist@,
                        consumer.blacklist@,
                        Ok(s.fourcc),
                    )
                    &&& s.modifier == DRM_FORMAT_MOD_LINEAR
                    &&& s.plane_count == 1
                    &&& s.mem_hint == 0
                    &&& s.path == PathCategory::CompatLinear
                    &&& s.mem_source == MemSource::GpuLinear
                }
            },
            Err(e) => match spec_pick_sync(producer.sync, consumer.sync) {
                Err(se) => e == se,
                Ok(_) => {
                    &&& spec_same_device(producer.identity, consumer.identity) ==> same_device_choice(
                        producer.formats.by_fourcc@,
                        consumer.formats.by_fourcc@,
                        producer.blacklist@,
                        consumer.blacklist@,
                        Err(e),
                    )
                    &&& !spec_same_device(producer.identity, consumer.identity)
                        ==> fourcc_only_choice(
                        producer.formats.by_fourcc@,
                        consumer.formats.by_fourcc@,
                        producer.blacklist@,
                        consumer.blacklist@,
                        Err(e),
                    )
                },
            },
        },
{
    let same_dev = producer.identity.same_device(&consumer.identity);
    let sync_mode = pick_sync(producer.sync, consumer.sync)?;
    let color = pick_color(producer.color, consumer.color);

    if same_dev {
        let (fourcc, modifier, plane_count) = pick_format_same_device(
            &producer.formats,
            &consumer.formats,
            &producer.blacklist,
            &consumer.blacklist,
        )?;
        let (path, mem_source) = if modifier == DRM_FORMAT_MOD_LINEAR {
            (PathCategory::CompatLinear, MemSource::GpuLinear)
        } else {
            (PathCategory::OptimizedSameDevice, MemSource::GpuNative)
        };
        let mem_hint = pick_mem_hint_same_dev(producer.mem_hint, consumer.mem_hint);
        return Ok(
            NegotiatedScheme {
                fourcc,
                modifier,
                plane_count,
                sync_mode,
                color,
                mem_hint,
                count: DEFAULT_POOL_COUNT,
                path,
                mem_source,
            },
        );
    }
    let fourcc = pick_fourcc_only(
        &producer.formats,
        &consumer.formats,
        &producer.blacklist,
        &consumer.blacklist,
    )?;
    Ok(
        NegotiatedScheme {
            fourcc,
            modifier: DRM_FORMAT_MOD_LINEAR,
            plane_count: 1,
            sync_mode,
            color,
            mem_hint: 0,
            count: DEFAULT_POOL_COUNT,
            path: PathCategory::CompatLinear,
            mem_source: MemSource::GpuLinear,
        },
    )
}


// ---------------------------------------------------------------------------
// Capability-log text

/// Byte `i` (little-endian) of a fourcc.
pub open spec fn fourcc_byte(fourcc: u32, i: int) -> u8 {
    ((fourcc >> (8 * i) as u32) & 0xffu32) as u8
}

pub open spec fn fourcc_printable(fourcc: u32) -> bool {
    forall|i: int| 0 <= i < 4 ==> 0x20 <= #[trigger] fourcc_byte(fourcc, i) <= 0x7e
}

/// A fourcc as quoted ASCII when all four bytes are printable, else as a
/// `0x`-prefixed eight-digit hexadecimal literal.
pub open spec fn fourcc_text(fourcc: u32) -> Seq<char> {
    if fourcc_printable(fourcc) {
        seq![
            '\'',
            fourcc_byte(fourcc, 0) as char,
            fourcc_byte(fourcc, 1) as char,
            fourcc_byte(fourcc, 2) as char,
            fourcc_byte(fourcc, 3) as char,
            '\'',
        ]
    } else {
        seq!['0', 'x'] + hex_fixed(fourcc as nat, 8)
    }
}

/// Two lowercase hex digits per byte, in order.
pub open spec fn uuid_text(bytes: Seq<u8>) -> Seq<char>
    decreases bytes.len(),
{
    if bytes.len() == 0 {
        Seq::empty()
    } else {
        uuid_text(bytes.drop_last()) + hex_fixed(bytes.last() as nat, 2)
    }
}

pub fn fourcc_str(fourcc: u32) -> (s: String)
    ensures
        s@ == fourcc_text(fourcc),
{
    let b0 = (fourcc & 0xff) as u8;
    let b1 = ((fourcc >> 8u32) & 0xff) as u8;
    let b2 = ((fourcc >> 16u32) & 0xff) as u8;
    let b3 = ((fourcc >> 24u32) & 0xff) as u8;
    assert(b0 == fourcc_byte(fourcc, 0)) by (bit_vector)
        requires
            b0 == (fourcc & 0xff) as u8,
    ;
    assert(b1 == fourcc_byte(fourcc, 1));
    assert(b2 == fourcc_byte(fourcc, 2));
    assert(b3 == fourcc_byte(fourcc, 3));
    let printable = 0x20 <= b0 && b0 <= 0x7e && 0x20 <= b1 && b1 <= 0x7e && 0x20 <= b2 && b2
        <= 0x7e && 0x20 <= b3 && b3 <= 0x7e;
    let mut s = String::new();
    if printable {
        push_char(&mut s, '\'');
        push_char(&mut s, b0 as char);
        push_char(&mut s, b1 as char);
        push_char(&mut s, b2 as char);
        push_char(&mut s, b3 as char);
        push_char(&mut s, '\'');
    } else {
        proof {
            if fourcc_printable(fourcc) {
                assert(0x20 <= fourcc_byte(fourcc, 0) <= 0x7e);
                assert(0x20 <= fourcc_byte(fourcc, 1) <= 0x7e);
                assert(0x20 <= fourcc_byte(fourcc, 2) <= 0x7e);
                assert(0x20 <= fourcc_byte(fourcc, 3) <= 0x7e);
            }
        }
        push_char(&mut s, '0');
        push_char(&mut s, 'x');
        push_hex_fixed(&mut s, fourcc as u64, 8);
    }
    assert(s@ =~= fourcc_text(fourcc));
    s
}

pub fn hex_uuid(bytes: &[u8; 16]) -> (s: String)
    ensures
        s@ == uuid_text(bytes@),
{
    let mut s = String::new();
    let mut i: usize = 0;
    while i < 16
        invariant
            0 <= i <= 16,
            bytes@.len() == 16,
            s@ == uuid_text(bytes@.take(i as int)),
        decreases 16 - i,
    {
        assert(bytes@.take(i + 1).drop_last() =~= bytes@.take(i as int));
        push_hex_fixed(&mut s, bytes[i] as u64, 2);
        i = i + 1;
    }
    assert(bytes@.take(16) =~= bytes@);
    s
}

// ---------------------------------------------------------------------------
// Laws

/// The negotiated sync mode is exactly one capability bit, and both peers
/// advertise it (for peers holding only known sync bits, as decoded ones do).
pub proof fn law_sync_mode_is_one_shared_bit(producer: u32, consumer: u32)
    requires
        producer & !KNOWN_SYNC_BITS == 0,
    ensures
        spec_pick_sync(producer, consumer) matches Ok(m) ==> {
            &&& m == SYNC_IMPLICIT || m == SYNC_SYNCOBJ_BINARY || m == SYNC_SYNCOBJ_TIMELINE
            &&& producer & m == m
            &&& consumer & m == m
        },
        spec_pick_sync(producer, consumer) is Err <==> producer & consumer == 0,
{
    let common = producer & consumer;
    assert(common & 4 != 0 ==> producer & 4 == 4 && consumer & 4 == 4) by (bit_vector)
        requires
            common == producer & consumer,
    ;
    assert(common & 4 == 0 && common & 2 != 0 ==> producer & 2 == 2 && consumer & 2 == 2)
        by (bit_vector)
        requires
            common == producer & consumer,
    ;
    assert(common != 0 && common & 4 == 0 && common & 2 == 0 ==> producer & 1 == 1 && consumer
        & 1 == 1) by (bit_vector)
        requires
            common == producer & consumer,
            producer & !0x7u32 == 0,
    ;
}

/// The lowest set bit of a non-zero value is a single bit of that value
/// with no lower bit set in the value.
pub proof fn law_lowest_bit(x: u32)
    requires
        x != 0,
    ensures
        lowest_bit(x) != 0,
        lowest_bit(x) & x == lowest_bit(x),
        lowest_bit(x) & ((lowest_bit(x) - 1) as u32) == 0,
        x & ((lowest_bit(x) - 1) as u32) == 0,
{
    let y = (!x + 1) as u32;
    let b = x & y;
    assert(b != 0 && b & x == b && b & ((b - 1) as u32) == 0 && x & ((b - 1) as u32) == 0)
        by (bit_vector)
        requires
            x != 0,
            y == (!x + 1) as u32,
            b == x & y,
    ;
}

/// Every color axis of a negotiated color holds exactly one bit of that
/// axis, and a bit both peers share on the axis whenever they share one.
pub proof fn law_color_axis_choice(producer: u32, consumer: u32, mask: u32)
    requires
        mask == COLOR_MASK_ENCODING || mask == COLOR_MASK_RANGE || mask == COLOR_MASK_ALPHA,
    ensures
        pick_axis(producer & consumer, mask) != 0,
        pick_axis(producer & consumer, mask) & mask == pick_axis(producer & consumer, mask),
        pick_axis(producer & consumer, mask) & ((pick_axis(producer & consumer, mask) - 1) as u32)
            == 0,
        producer & consumer & mask != 0 ==> producer & pick_axis(producer & consumer, mask)
            == pick_axis(producer & consumer, mask) && consumer & pick_axis(
            producer & consumer,
            mask,
        ) == pick_axis(producer & consumer, mask),
{
    let i = producer & consumer;
    let common = i & mask;
    if common != 0 {
        law_lowest_bit(common);
        let b = lowest_bit(common);
        assert(b & mask == b && producer & b == b && consumer & b == b) by (bit_vector)
            requires
                b & common == b,
                common == i & mask,
                i == producer & consumer,
        ;
    } else {
        assert(DEFAULT_COLOR & mask != 0 && (DEFAULT_COLOR & mask) & mask == DEFAULT_COLOR & mask
            && (DEFAULT_COLOR & mask) & (((DEFAULT_COLOR & mask) - 1) as u32) == 0)
            by (bit_vector)
            requires
                mask == 0x1f || mask == 0x60 || mask == 0x180,
                DEFAULT_COLOR == 0xC1,
        ;
    }
}

/// Axis `mask` of the negotiated color, from the peers' colors: the lowest
/// bit of the axis that both peers hold, or the default's bits on that axis
/// when they share none.
proof fn lemma_color_axis_of_pick(producer: u32, consumer: u32, mask: u32)
    requires
        mask == COLOR_MASK_ENCODING || mask == COLOR_MASK_RANGE || mask == COLOR_MASK_ALPHA,
    ensures
        spec_pick_color(producer, consumer) & mask == pick_axis(producer & consumer, mask),
{
    let i = producer & consumer;
    let a = pick_axis(i, COLOR_MASK_ENCODING);
    let b = pick_axis(i, COLOR_MASK_RANGE);
    let c = pick_axis(i, COLOR_MASK_ALPHA);
    law_color_axis_choice(producer, consumer, COLOR_MASK_ENCODING);
    law_color_axis_choice(producer, consumer, COLOR_MASK_RANGE);
    law_color_axis_choice(producer, consumer, COLOR_MASK_ALPHA);
    assert((a | b | c) & 0x1f == a && (a | b | c) & 0x60 == b && (a | b | c) & 0x180 == c) by (bit_vector)
        requires
            a & 0x1f == a,
            b & 0x60 == b,
            c & 0x180 == c,
    ;
}

/// The negotiated color takes, on every axis (encoding, range, alpha), one
/// bit: the lowest bit of that axis that both peers advertise, whenever
/// they share one (so never a bit one of them lacks), and the default's
/// choice on that axis otherwise; it holds no bit outside the three axes.
pub proof fn law_negotiated_color(producer: u32, consumer: u32, mask: u32)
    requires
        mask == COLOR_MASK_ENCODING || mask == COLOR_MASK_RANGE || mask == COLOR_MASK_ALPHA,
    ensures
        ({
            let r = spec_pick_color(producer, consumer) & mask;
            let shared = producer & consumer & mask;
            &&& shared != 0 ==> {
                &&& r != 0
                &&& r & ((r - 1) as u32) == 0
                &&& producer & r == r
                &&& consumer & r == r
                &&& r & mask == r
                &&& shared & ((r - 1) as u32) == 0
            }
            &&& shared == 0 ==> r == DEFAULT_COLOR & mask
        }),
        spec_pick_color(producer, consumer) & !(COLOR_MASK_ENCODING | COLOR_MASK_RANGE | COLOR_MASK_ALPHA) == 0,
{
    lemma_color_axis_of_pick(producer, consumer, COLOR_MASK_ENCODING);
    lemma_color_axis_of_pick(producer, consumer, COLOR_MASK_RANGE);
    lemma_color_axis_of_pick(producer, consumer, COLOR_MASK_ALPHA);
    law_color_axis_choice(producer, consumer, mask);
    let i = producer & consumer;
    let shared = i & mask;
    assert(producer & consumer & mask == shared);
    if shared != 0 {
        law_lowest_bit(shared);
    }
    let a = pick_axis(i, COLOR_MASK_ENCODING);
    let b = pick_axis(i, COLOR_MASK_RANGE);
    let c = pick_axis(i, COLOR_MASK_ALPHA);
    law_color_axis_choice(producer, consumer, COLOR_MASK_ENCODING);
    law_color_axis_choice(producer, consumer, COLOR_MASK_RANGE);
    law_color_axis_choice(producer, consumer, COLOR_MASK_ALPHA);
    assert((a | b | c) & !(0x1fu32 | 0x60u32 | 0x180u32) == 0) by (bit_vector)
        requires
            a & 0x1f == a,
            b & 0x60 == b,
            c & 0x180 == c,
    ;
}

proof fn lemma_first_match_member(s: Seq<ModCap>, pred: spec_fn(ModCap) -> bool)
    requires
        first_match(s, pred) is Some,
    ensures
        s.contains(first_match(s, pred)->0),
        pred(first_match(s, pred)->0),
{
    let f = s.filter(pred);
    s.lemma_filter_pred(pred, 0);
    s.lemma_filter_contains_rev(pred, f[0]);
}

/// A same-device choice names a (fourcc, modifier, plane count) that both
/// peers advertise and neither peer has blacklisted.
pub proof fn law_same_device_choice_is_advertised_and_allowed(
    p: Map<u32, Vec<ModCap>>,
    c: Map<u32, Vec<ModCap>>,
    p_blacklist: Seq<(u32, u64)>,
    c_blacklist: Seq<(u32, u64)>,
    fourcc: u32,
    modifier: u64,
    plane_count: u32,
)
    requires
        same_device_choice(p, c, p_blacklist, c_blacklist, Ok((fourcc, modifier, plane_count))),
    ensures
        p.contains_key(fourcc),
        c.contains_key(fourcc),
        p[fourcc]@.contains(ModCap { modifier, plane_count }),
        c[fourcc]@.contains(ModCap { modifier, plane_count }),
        !p_blacklist.contains((fourcc, modifier)),
        !c_blacklist.contains((fourcc, modifier)),
{
    let any_nl = exists|g: u32|
        #[trigger] fourcc_candidate(p, c, p_blacklist, c_blacklist, g, is_non_linear()) is Some;
    let pred = if any_nl {
        is_non_linear()
    } else {
        is_linear()
    };
    let common = common_mods(fourcc, p[fourcc]@, c[fourcc]@, p_blacklist, c_blacklist);
    let keep = usable_mod(fourcc, c[fourcc]@, p_blacklist, c_blacklist);
    assert(fourcc_candidate(p, c, p_blacklist, c_blacklist, fourcc, pred) is Some);
    lemma_first_match_member(common, pred);
    let m = ModCap { modifier, plane_count };
    assert(common.contains(m));
    p[fourcc]@.lemma_filter_contains_rev(keep, m);
    let k = choose|k: int| 0 <= k < common.len() && common[k] == m;
    p[fourcc]@.lemma_filter_pred(keep, k);
}

/// A cross-device choice names a fourcc both peers advertise, with LINEAR
/// blacklisted by neither.
pub proof fn law_fourcc_only_choice_is_advertised_and_allowed(
    p: Map<u32, Vec<ModCap>>,
    c: Map<u32, Vec<ModCap>>,
    p_blacklist: Seq<(u32, u64)>,
    c_blacklist: Seq<(u32, u64)>,
    fourcc: u32,
)
    requires
        fourcc_only_choice(p, c, p_blacklist, c_blacklist, Ok(fourcc)),
    ensures
        p.contains_key(fourcc),
        c.contains_key(fourcc),
        !p_blacklist.contains((fourcc, DRM_FORMAT_MOD_LINEAR)),
        !c_blacklist.contains((fourcc, DRM_FORMAT_MOD_LINEAR)),
{
}
} // verus!
