//! Renderer-to-display routing edges ("links"), each with its own geometry.
//! A display is fed by at most one link: adding a link for a display first
//! drops the one it had. Link ids are handed out in increasing order.
//!
//! Geometry and colours are `f32` values in the daemon; the table holds
//! their bit patterns (`f32::to_bits`) and compares them bit for bit.

use vstd::prelude::*;
use crate::text::{chars_of, chars_order, compare_chars, lemma_chars_order, lemma_chars_order_trans, owned, str_eq};

verus! {

broadcast use {vstd::seq_lib::group_filter_ensures, vstd::array::group_array_axioms};

/// Bit pattern of `1.0f32`.
pub const F32_ONE_BITS: u32 = 0x3f80_0000;

/// Bit pattern of `f32::INFINITY`, the extent that stands for "the whole
/// texture" or "the whole surface".
pub const F32_INFINITY_BITS: u32 = 0x7f80_0000;

/// Source rectangle in renderer-texture pixel space (`f32` bit patterns).
#[derive(Debug, Clone, Copy, PartialEq, Eq, Structural)]
pub struct LinkSrcRect {
    pub x: u32,
    pub y: u32,
    pub w: u32,
    pub h: u32,
}

/// Destination rectangle in display pixel space (`f32` bit patterns).
#[derive(Debug, Clone, Copy, PartialEq, Eq, Structural)]
pub struct LinkDstRect {
    pub x: u32,
    pub y: u32,
    pub w: u32,
    pub h: u32,
}

/// The whole renderer texture: origin zero, infinite extent.
pub open spec fn spec_full_src() -> LinkSrcRect {
    LinkSrcRect { x: 0, y: 0, w: F32_INFINITY_BITS, h: F32_INFINITY_BITS }
}

/// The whole display surface: origin zero, infinite extent.
pub open spec fn spec_full_dst() -> LinkDstRect {
    LinkDstRect { x: 0, y: 0, w: F32_INFINITY_BITS, h: F32_INFINITY_BITS }
}

pub fn full_src() -> (r: LinkSrcRect)
    ensures
        r == spec_full_src(),
{
    LinkSrcRect { x: 0, y: 0, w: F32_INFINITY_BITS, h: F32_INFINITY_BITS }
}

pub fn full_dst() -> (r: LinkDstRect)
    ensures
        r == spec_full_dst(),
{
    LinkDstRect { x: 0, y: 0, w: F32_INFINITY_BITS, h: F32_INFINITY_BITS }
}

/// Opaque black: the clear colour of a link whose renderer is not registered.
pub fn default_clear_rgba() -> (r: [u32; 4])
    ensures
        r@ == seq![0u32, 0u32, 0u32, F32_ONE_BITS],
{
    let r: [u32; 4] = [0, 0, 0, F32_ONE_BITS];
    assert(r@ =~= seq![0u32, 0u32, 0u32, F32_ONE_BITS]);
    r
}

/// A single renderer-to-display routing edge.
#[derive(Debug, Clone)]
pub struct Link {
    pub id: u64,
    pub renderer_id: String,
    pub display_id: u64,
    pub enabled: bool,
    /// Source rectangle in renderer texture space.
    pub src_rect: LinkSrcRect,
    /// Destination rectangle in display surface space.
    pub dst_rect: LinkDstRect,
    /// `wl_output.transform` value.
    pub transform: u32,
    /// Background clear colour, RGBA.
    pub clear_rgba: [u32; 4],
    /// Z-order for composition; higher values are on top.
    pub z_order: i32,
}

impl Link {
    /// A field-for-field copy.
    pub fn copy(&self) -> (r: Link)
        ensures
            r == *self,
    {
        Link {
            id: self.id,
            renderer_id: self.renderer_id.clone(),
            display_id: self.display_id,
            enabled: self.enabled,
            src_rect: self.src_rect,
            dst_rect: self.dst_rect,
            transform: self.transform,
            clear_rgba: self.clear_rgba,
            z_order: self.z_order,
        }
    }
}

/// What the table asks of a registered renderer: its clear colour at the
/// moment a link to it is made (RGBA, `f32` bit patterns). An implementation
/// reports the colour `spec_clear_rgba` names for the handle.
pub trait RendererClearColor {
    /// The clear colour the handle stands for.
    spec fn spec_clear_rgba(&self) -> [u32; 4];

    fn clear_rgba_bits(&self) -> (r: [u32; 4])
        ensures
            r == self.spec_clear_rgba(),
    ;
}

/// The link with this id.
pub open spec fn with_id(id: u64) -> spec_fn(Link) -> bool {
    |l: Link| l.id == id
}

/// Every link but the one with this id.
pub open spec fn without_id(id: u64) -> spec_fn(Link) -> bool {
    |l: Link| l.id != id
}

/// The links feeding this display.
pub open spec fn on_display(d: u64) -> spec_fn(Link) -> bool {
    |l: Link| l.display_id == d
}

/// The links not feeding this display.
pub open spec fn off_display(d: u64) -> spec_fn(Link) -> bool {
    |l: Link| l.display_id != d
}

/// The links fed by this renderer.
pub open spec fn of_renderer(r: Seq<char>) -> spec_fn(Link) -> bool {
    |l: Link| l.renderer_id@ == r
}

/// The links not fed by this renderer.
pub open spec fn not_of_renderer(r: Seq<char>) -> spec_fn(Link) -> bool {
    |l: Link| l.renderer_id@ != r
}

/// Two links that share neither id nor display.
pub open spec fn apart(a: Link, b: Link) -> bool {
    a.id != b.id && a.display_id != b.display_id
}

/// The display of each link, in order.
pub open spec fn displays_of(links: Seq<Link>) -> Seq<u64> {
    links.map_values(|l: Link| l.display_id)
}


/// A link as `add_link` makes it.
pub open spec fn fresh_link(id: u64, renderer_id: String, display_id: u64, clear_rgba: [u32; 4]) -> Link {
    Link {
        id,
        renderer_id,
        display_id,
        enabled: true,
        src_rect: spec_full_src(),
        dst_rect: spec_full_dst(),
        transform: 0,
        clear_rgba,
        z_order: 0,
    }
}

/// `l` with every field given replaced.
pub open spec fn reshaped(
    l: Link,
    src: Option<LinkSrcRect>,
    dst: Option<LinkDstRect>,
    transform: Option<u32>,
    clear_rgba: Option<[u32; 4]>,
    z_order: Option<i32>,
) -> Link {
    Link {
        src_rect: match src { Some(v) => v, None => l.src_rect },
        dst_rect: match dst { Some(v) => v, None => l.dst_rect },
        transform: match transform { Some(v) => v, None => l.transform },
        clear_rgba: match clear_rgba { Some(v) => v, None => l.clear_rgba },
        z_order: match z_order { Some(v) => v, None => l.z_order },
        ..l
    }
}

/// Whether some field given differs from the one `l` has.
pub open spec fn reshape_changes(
    l: Link,
    src: Option<LinkSrcRect>,
    dst: Option<LinkDstRect>,
    transform: Option<u32>,
    clear_rgba: Option<[u32; 4]>,
    z_order: Option<i32>,
) -> bool {
    ||| (src matches Some(v) && v != l.src_rect)
    ||| (dst matches Some(v) && v != l.dst_rect)
    ||| (transform matches Some(v) && v != l.transform)
    ||| (clear_rgba matches Some(v) && v != l.clear_rgba)
    ||| (z_order matches Some(v) && v != l.z_order)
}

/// `b` is `a` handed to the renderer `renderer`, all else kept.
pub open spec fn retargeted(a: Link, b: Link, renderer: Seq<char>) -> bool {
    &&& b == (Link { renderer_id: b.renderer_id, ..a })
    &&& b.renderer_id@ == renderer
}

/// Each number larger than the one before.
pub open spec fn strictly_ascending(s: Seq<u64>) -> bool {
    forall|i: int, j: int| 0 <= i < j < s.len() ==> s[i] < s[j]
}

fn same_rgba(a: &[u32; 4], b: &[u32; 4]) -> (r: bool)
    ensures
        r == (*a == *b),
{
    let r = a[0] == b[0] && a[1] == b[1] && a[2] == b[2] && a[3] == b[3];
    proof {
        if r {
            assert(*a =~= *b);
        }
    }
    r
}

/// The distinct values of `v`, ascending.
fn ascending_distinct(v: &Vec<u64>) -> (r: Vec<u64>)
    ensures
        strictly_ascending(r@),
        forall|x: u64| r@.contains(x) <==> v@.contains(x),
{
    let mut out: Vec<u64> = Vec::new();
    let mut i: usize = 0;
    while i < v.len()
        invariant
            0 <= i <= v@.len(),
            strictly_ascending(out@),
            forall|x: u64| out@.contains(x) <==> v@.take(i as int).contains(x),
        decreases v@.len() - i,
    {
        let x = v[i];
        let mut j: usize = 0;
        while j < out.len() && out[j] < x
            invariant
                0 <= j <= out@.len(),
                forall|k: int| 0 <= k < j ==> out@[k] < x,
            decreases out@.len() - j,
        {
            j = j + 1;
        }
        let ghost before = out@;
        if j < out.len() && out[j] == x {
        } else {
            out.insert(j, x);
            proof {
                assert forall|a: int, b: int| 0 <= a < b < out@.len() implies out@[a] < out@[b] by {
                    if a < j as int && b > j as int {
                        assert(out@[b] == before[b - 1]);
                        assert(before[b - 1] >= x) by {
                            if before[b - 1] < x {
                                assert(before[j as int] < before[b - 1]);
                            }
                        }
                    } else if a == j as int && b > j as int {
                        assert(out@[b] == before[b - 1]);
                        if j < before.len() {
                            assert(before[j as int] >= x);
                            if b - 1 > j {
                                assert(before[j as int] < before[b - 1]);
                            }
                        }
                    }
                }
                assert forall|y: u64| out@.contains(y) <==> (before.contains(y) || y == x) by {
                    if out@.contains(y) {
                        let k = choose|k: int| 0 <= k < out@.len() && out@[k] == y;
                        if k < j as int {
                            assert(before[k] == y);
                        } else if k > j as int {
                            assert(before[k - 1] == y);
                        }
                    }
                    if before.contains(y) {
                        let k = choose|k: int| 0 <= k < before.len() && before[k] == y;
                        if k < j as int {
                            assert(out@[k] == y);
                        } else {
                            assert(out@[k + 1] == y);
                        }
                    }
                    if y == x {
                        assert(out@[j as int] == y);
                    }
                }
            }
        }
        proof {
            if j < before.len() && before[j as int] == x {
                assert(before.contains(x));
            }
            assert(forall|y: u64| out@.contains(y) <==> (before.contains(y) || y == x));
            assert(v@.take(i + 1) =~= v@.take(i as int).push(x));
            assert forall|y: u64| out@.contains(y) <==> v@.take(i + 1).contains(y) by {
                vstd::seq_lib::lemma_seq_contains_after_push(v@.take(i as int), x, y);
                assert(out@.contains(y) <==> (before.contains(y) || y == x));
                assert(before.contains(y) <==> v@.take(i as int).contains(y));
            }
        }
        i = i + 1;
    }
    proof {
        assert(v@.take(v@.len() as int) =~= v@);
    }
    out
}

/// Whether `x` occurs in `t`.
fn contains_u64(t: &[u64], x: u64) -> (r: bool)
    ensures
        r == t@.contains(x),
{
    let mut j: usize = 0;
    while j < t.len()
        invariant
            0 <= j <= t@.len(),
            forall|k: int| 0 <= k < j ==> t@[k] != x,
        decreases t@.len() - j,
    {
        if t[j] == x {
            proof {
                assert(t@[j as int] == x);
            }
            return true;
        }
        j = j + 1;
    }
    false
}

/// The display of each link, in order.
fn displays_in_order(links: &Vec<Link>) -> (r: Vec<u64>)
    ensures
        r@ == displays_of(links@),
{
    let mut out: Vec<u64> = Vec::new();
    let mut i: usize = 0;
    while i < links.len()
        invariant
            0 <= i <= links@.len(),
            out@ == displays_of(links@.take(i as int)),
        decreases links@.len() - i,
    {
        out.push(links[i].display_id);
        proof {
            assert(displays_of(links@.take(i + 1)) =~= displays_of(links@.take(i as int)).push(links@[i as int].display_id));
        }
        i = i + 1;
    }
    proof {
        assert(links@.take(links@.len() as int) =~= links@);
    }
    out
}

/// Links pairwise apart, whose two parts are apart from each other, stay
/// apart when joined.
proof fn lemma_concat_apart(a: Seq<Link>, b: Seq<Link>)
    requires
        links_apart(a),
        links_apart(b),
        forall|i: int, j: int| 0 <= i < a.len() && 0 <= j < b.len() ==> apart(a[i], b[j]),
    ensures
        links_apart(a + b),
{
    assert forall|i: int, j: int| 0 <= i < j < (a + b).len() implies apart((a + b)[i], (a + b)[j]) by {
        if j < a.len() {
        } else if i < a.len() {
            assert(apart(a[i], b[j - a.len()]));
        } else {
            assert(apart(b[i - a.len()], b[j - a.len()]));
        }
    }
}


/// After a link is added for a display (the display's earlier links
/// dropped first), that link is the only one feeding the display.
pub proof fn law_added_link_is_the_display_link(before: Seq<Link>, d: u64, l: Link)
    requires
        l.display_id == d,
    ensures
        before.filter(off_display(d)).push(l).filter(on_display(d)) == seq![l],
{
    let kept = before.filter(off_display(d));
    kept.lemma_filter_push(l, on_display(d));
    let none = kept.filter(on_display(d));
    if none.len() > 0 {
        lemma_filter_within(kept, on_display(d), 0);
    }
    assert(none =~= Seq::<Link>::empty());
    assert(none.push(l) =~= seq![l]);
}

/// Filtering by `q` after `p` is filtering by `q` alone when `q` implies `p`.
proof fn lemma_filter_filter(s: Seq<Link>, p: spec_fn(Link) -> bool, q: spec_fn(Link) -> bool)
    requires
        forall|l: Link| #[trigger] q(l) ==> p(l),
    ensures
        s.filter(p).filter(q) == s.filter(q),
    decreases s.len(),
{
    reveal(Seq::filter);
    if s.len() > 0 {
        let rest = s.drop_last();
        lemma_filter_filter(rest, p, q);
        rest.lemma_filter_push(s.last(), p);
        rest.lemma_filter_push(s.last(), q);
        assert(rest.push(s.last()) =~= s);
        if p(s.last()) {
            rest.filter(p).lemma_filter_push(s.last(), q);
        }
    }
}

/// Adding a link for display `d` leaves what feeds any other display.
proof fn lemma_other_display_unchanged(before: Seq<Link>, d: u64, l: Link, other: u64)
    requires
        l.display_id == d,
        other != d,
    ensures
        before.filter(off_display(d)).push(l).filter(on_display(other)) == before.filter(on_display(other)),
{
    before.filter(off_display(d)).lemma_filter_push(l, on_display(other));
    lemma_filter_filter(before, off_display(d), on_display(other));
}

/// Which listed displays exist.
pub open spec fn present_in(present: Seq<u64>) -> spec_fn(u64) -> bool {
    |d: u64| present.contains(d)
}

/// Whether `d` occurs in `ids`.
fn contains_id(ids: &[u64], d: u64) -> (r: bool)
    ensures
        r == ids@.contains(d),
{
    let mut i: usize = 0;
    while i < ids.len()
        invariant
            0 <= i <= ids@.len(),
            forall|j: int| 0 <= j < i ==> ids@[j] != d,
        decreases ids@.len() - i,
    {
        if ids[i] == d {
            proof {
                assert(ids@[i as int] == d);
            }
            return true;
        }
        i = i + 1;
    }
    false
}

/// The automatic-stop flag listed for display `d`, if it is listed.
pub open spec fn listed_stop(displays: Seq<(u64, bool)>, d: u64) -> Option<bool>
    decreases displays.len(),
{
    if displays.len() == 0 {
        None
    } else if displays.last().0 == d {
        Some(displays.last().1)
    } else {
        listed_stop(displays.drop_last(), d)
    }
}

/// No display is listed twice.
pub open spec fn display_ids_unique(displays: Seq<(u64, bool)>) -> bool {
    forall|i: int, j: int| 0 <= i < j < displays.len() ==> displays[i].0 != displays[j].0
}

/// `l` after activation: a link of a listed display is enabled exactly
/// when neither the manual stop nor the display's own stop holds; other
/// links stay as they are.
pub open spec fn activated(l: Link, displays: Seq<(u64, bool)>, manual_stopped: bool) -> Link {
    match listed_stop(displays, l.display_id) {
        Some(stop) => Link { enabled: !manual_stopped && !stop, ..l },
        None => l,
    }
}

/// Activation as a function on links.
pub open spec fn activation(displays: Seq<(u64, bool)>, manual_stopped: bool) -> spec_fn(int, Link) -> Link {
    |i: int, l: Link| activated(l, displays, manual_stopped)
}

/// Whether activation changes the link of display `d`.
pub open spec fn flipped_display(links: Seq<Link>, displays: Seq<(u64, bool)>, manual_stopped: bool, d: u64) -> bool {
    exists|k: int|
        0 <= k < links.len() && #[trigger] links[k].display_id == d && activated(links[k], displays, manual_stopped).enabled
            != links[k].enabled
}

/// Whether activation enables again a link of renderer `r`.
pub open spec fn reenabled_renderer(
    links: Seq<Link>,
    displays: Seq<(u64, bool)>,
    manual_stopped: bool,
    r: Seq<char>,
) -> bool {
    exists|k: int|
        0 <= k < links.len() && (#[trigger] links[k]).renderer_id@ == r && !links[k].enabled && activated(
            links[k],
            displays,
            manual_stopped,
        ).enabled
}

/// Whether `r` is the renderer of a link, with every link of it disabled.
pub open spec fn fully_disabled(links: Seq<Link>, r: Seq<char>) -> bool {
    &&& exists|k: int| 0 <= k < links.len() && (#[trigger] links[k]).renderer_id@ == r
    &&& forall|k: int| 0 <= k < links.len() && (#[trigger] links[k]).renderer_id@ == r ==> !links[k].enabled
}

proof fn lemma_listed_push(displays: Seq<(u64, bool)>, p: (u64, bool), d: u64)
    ensures
        listed_stop(displays.push(p), d) == if p.0 == d {
            Some(p.1)
        } else {
            listed_stop(displays, d)
        },
{
    assert(displays.push(p).drop_last() =~= displays);
}

proof fn lemma_listed_none(displays: Seq<(u64, bool)>, d: u64)
    requires
        forall|j: int| 0 <= j < displays.len() ==> (#[trigger] displays[j]).0 != d,
    ensures
        listed_stop(displays, d) is None,
    decreases displays.len(),
{
    if displays.len() > 0 {
        lemma_listed_none(displays.drop_last(), d);
    }
}

proof fn lemma_push_contains(s: Seq<u64>, a: u64)
    ensures
        forall|y: u64| #[trigger] s.push(a).contains(y) <==> s.contains(y) || y == a,
{
    assert forall|y: u64| #[trigger] s.push(a).contains(y) <==> s.contains(y) || y == a by {
        if s.push(a).contains(y) {
            let m = choose|m: int| 0 <= m < s.push(a).len() && s.push(a)[m] == y;
            if m < s.len() {
                assert(s[m] == y);
            }
        }
        if s.contains(y) {
            let m = choose|m: int| 0 <= m < s.len() && s[m] == y;
            assert(s.push(a)[m] == y);
        }
        assert(s.push(a)[s.len() as int] == a);
    }
}

/// Whether one of `names` reads `x`.
pub open spec fn names_contain(names: Seq<String>, x: Seq<char>) -> bool {
    exists|j: int| 0 <= j < names.len() && #[trigger] names[j]@ == x
}

proof fn lemma_push_names(s: Seq<String>, a: String)
    ensures
        forall|x: Seq<char>| #[trigger] names_contain(s.push(a), x) <==> (names_contain(s, x) || a@ == x),
{
    assert forall|x: Seq<char>| #[trigger] names_contain(s.push(a), x) <==> (names_contain(s, x) || a@ == x) by {
        if names_contain(s.push(a), x) {
            let m = choose|m: int| 0 <= m < s.push(a).len() && #[trigger] s.push(a)[m]@ == x;
            if m < s.len() {
                assert(s[m]@ == x);
            }
        }
        if names_contain(s, x) {
            let m = choose|m: int| 0 <= m < s.len() && #[trigger] s[m]@ == x;
            assert(s.push(a)[m]@ == x);
        }
        assert(s.push(a)[s.len() as int] == a);
    }
}

/// Listing display `d` last changes activation only for its links: every
/// other display flips, and every renderer is enabled again, as before,
/// and nothing flipped for `d` before.
proof fn lemma_activation_step(links: Seq<Link>, before: Seq<(u64, bool)>, d: u64, stop: bool, ms: bool)
    requires
        listed_stop(before, d) is None,
    ensures
        ({
            let after = before.push((d, stop));
            &&& forall|y: u64| y != d ==> (#[trigger] flipped_display(links, after, ms, y) <==> flipped_display(links, before, ms, y))
            &&& !flipped_display(links, before, ms, d)
            &&& forall|x: Seq<char>|
                #[trigger] reenabled_renderer(links, after, ms, x) <==> (reenabled_renderer(links, before, ms, x) || exists|k: int|
                    0 <= k < links.len() && (#[trigger] links[k]).renderer_id@ == x && links[k].display_id == d
                        && !links[k].enabled && !ms && !stop)
        }),
{
    let after = before.push((d, stop));
    assert forall|l: Link| l.display_id != d implies #[trigger] activated(l, after, ms) == activated(l, before, ms) by {
        lemma_listed_push(before, (d, stop), l.display_id);
    }
    assert forall|l: Link| l.display_id == d implies #[trigger] activated(l, after, ms) == (Link { enabled: !ms && !stop, ..l })
        && activated(l, before, ms) == l by {
        lemma_listed_push(before, (d, stop), l.display_id);
    }
    assert forall|y: u64| y != d implies (#[trigger] flipped_display(links, after, ms, y) <==> flipped_display(links, before, ms, y)) by {
        if flipped_display(links, after, ms, y) {
            let m = choose|m: int|
                0 <= m < links.len() && #[trigger] links[m].display_id == y && activated(links[m], after, ms).enabled
                    != links[m].enabled;
            assert(activated(links[m], before, ms) == activated(links[m], after, ms));
        }
        if flipped_display(links, before, ms, y) {
            let m = choose|m: int|
                0 <= m < links.len() && #[trigger] links[m].display_id == y && activated(links[m], before, ms).enabled
                    != links[m].enabled;
            assert(activated(links[m], before, ms) == activated(links[m], after, ms));
        }
    }
    if flipped_display(links, before, ms, d) {
        let m = choose|m: int|
            0 <= m < links.len() && #[trigger] links[m].display_id == d && activated(links[m], before, ms).enabled
                != links[m].enabled;
        assert(activated(links[m], before, ms) == links[m]);
    }
    assert forall|x: Seq<char>|
        #[trigger] reenabled_renderer(links, after, ms, x) <==> (reenabled_renderer(links, before, ms, x) || exists|k: int|
            0 <= k < links.len() && (#[trigger] links[k]).renderer_id@ == x && links[k].display_id == d
                && !links[k].enabled && !ms && !stop) by {
        if reenabled_renderer(links, after, ms, x) {
            let m = choose|m: int|
                0 <= m < links.len() && (#[trigger] links[m]).renderer_id@ == x && !links[m].enabled && activated(
                    links[m],
                    after,
                    ms,
                ).enabled;
            if links[m].display_id != d {
                assert(activated(links[m], before, ms) == activated(links[m], after, ms));
            }
        }
        if reenabled_renderer(links, before, ms, x) {
            let m = choose|m: int|
                0 <= m < links.len() && (#[trigger] links[m]).renderer_id@ == x && !links[m].enabled && activated(
                    links[m],
                    before,
                    ms,
                ).enabled;
            if links[m].display_id == d {
                assert(activated(links[m], before, ms) == links[m]);
            } else {
                assert(activated(links[m], before, ms) == activated(links[m], after, ms));
            }
        }
        if exists|k: int|
            0 <= k < links.len() && (#[trigger] links[k]).renderer_id@ == x && links[k].display_id == d
                && !links[k].enabled && !ms && !stop {
            let m = choose|m: int|
                0 <= m < links.len() && (#[trigger] links[m]).renderer_id@ == x && links[m].display_id == d
                    && !links[m].enabled && !ms && !stop;
            assert(activated(links[m], after, ms).enabled);
        }
    }
}

/// With links apart, link `k` is the only link of its display, so it alone
/// decides whether that display flips.
proof fn lemma_flip_at(links: Seq<Link>, displays: Seq<(u64, bool)>, ms: bool, k: int)
    requires
        links_apart(links),
        0 <= k < links.len(),
    ensures
        flipped_display(links, displays, ms, links[k].display_id) <==> activated(links[k], displays, ms).enabled
            != links[k].enabled,
        forall|m: int| 0 <= m < links.len() && #[trigger] links[m].display_id == links[k].display_id ==> m == k,
{
    let d = links[k].display_id;
    assert forall|m: int| 0 <= m < links.len() && #[trigger] links[m].display_id == d implies m == k by {
        if m < k {
            assert(apart(links[m], links[k]));
        } else if m > k {
            assert(apart(links[k], links[m]));
        }
    }
}

/// Activating twice with the same stops changes nothing the second time:
/// no display flips and no renderer comes back.
pub proof fn law_activation_settles(links: Seq<Link>, displays: Seq<(u64, bool)>, manual_stopped: bool, d: u64, r: Seq<char>)
    ensures
        !flipped_display(links.map(activation(displays, manual_stopped)), displays, manual_stopped, d),
        !reenabled_renderer(links.map(activation(displays, manual_stopped)), displays, manual_stopped, r),
{
    let once = links.map(activation(displays, manual_stopped));
    if flipped_display(once, displays, manual_stopped, d) {
        let k = choose|k: int|
            0 <= k < once.len() && #[trigger] once[k].display_id == d && activated(once[k], displays, manual_stopped).enabled
                != once[k].enabled;
        assert(once[k] == activated(links[k], displays, manual_stopped));
    }
    if reenabled_renderer(once, displays, manual_stopped, r) {
        let k = choose|k: int|
            0 <= k < once.len() && (#[trigger] once[k]).renderer_id@ == r && !once[k].enabled && activated(
                once[k],
                displays,
                manual_stopped,
            ).enabled;
        assert(once[k] == activated(links[k], displays, manual_stopped));
    }
}

/// Which links a removal or a query takes.
enum Selector {
    Id(u64),
    Display(u64),
    Renderer(String),
}

spec fn selector_takes(s: Selector, l: Link) -> bool {
    match s {
        Selector::Id(id) => l.id == id,
        Selector::Display(d) => l.display_id == d,
        Selector::Renderer(r) => l.renderer_id@ == r@,
    }
}

spec fn taken_by(s: Selector) -> spec_fn(Link) -> bool {
    |l: Link| selector_takes(s, l)
}

spec fn left_by(s: Selector) -> spec_fn(Link) -> bool {
    |l: Link| !selector_takes(s, l)
}

/// Splits `links` into the ones `s` leaves and the ones it takes, both in
/// their original order.
fn split_links(links: &Vec<Link>, s: &Selector) -> (r: (Vec<Link>, Vec<Link>))
    ensures
        r.0@ == links@.filter(left_by(*s)),
        r.1@ == links@.filter(taken_by(*s)),
{
    let mut kept: Vec<Link> = Vec::new();
    let mut taken: Vec<Link> = Vec::new();
    let mut i: usize = 0;
    proof {
        assert(links@.take(0) =~= Seq::<Link>::empty());
        reveal(Seq::filter);
    }
    while i < links.len()
        invariant
            0 <= i <= links@.len(),
            kept@ == links@.take(i as int).filter(left_by(*s)),
            taken@ == links@.take(i as int).filter(taken_by(*s)),
        decreases links@.len() - i,
    {
        let l = &links[i];
        let takes = match s {
            Selector::Id(id) => l.id == *id,
            Selector::Display(d) => l.display_id == *d,
            Selector::Renderer(r) => str_eq(l.renderer_id.as_str(), r.as_str()),
        };
        proof {
            assert(links@.take(i + 1) =~= links@.take(i as int).push(links@[i as int]));
            links@.take(i as int).lemma_filter_push(links@[i as int], left_by(*s));
            links@.take(i as int).lemma_filter_push(links@[i as int], taken_by(*s));
        }
        if takes {
            taken.push(l.copy());
        } else {
            kept.push(l.copy());
        }
        i = i + 1;
    }
    proof {
        assert(links@.take(links@.len() as int) =~= links@);
    }
    (kept, taken)
}

/// A filter keeps only elements of the sequence it filters.
proof fn lemma_filter_within(s: Seq<Link>, p: spec_fn(Link) -> bool, k: int)
    requires
        0 <= k < s.filter(p).len(),
    ensures
        exists|j: int| 0 <= j < s.len() && s[j] == s.filter(p)[k],
{
    assert(s.filter(p).contains(s.filter(p)[k]));
    s.lemma_filter_contains_rev(p, s.filter(p)[k]);
}

/// Filtering keeps links pairwise apart.
proof fn lemma_filter_apart(s: Seq<Link>, p: spec_fn(Link) -> bool)
    requires
        forall|i: int, j: int| 0 <= i < j < s.len() ==> apart(s[i], s[j]),
    ensures
        forall|i: int, j: int|
            0 <= i < j < s.filter(p).len() ==> apart(s.filter(p)[i], s.filter(p)[j]),
    decreases s.len(),
{
    reveal(Seq::filter);
    if s.len() > 0 {
        let rest = s.drop_last();
        lemma_filter_apart(rest, p);
        let f = s.filter(p);
        let g = rest.filter(p);
        if p(s.last()) {
            assert(f == g.push(s.last()));
            assert forall|i: int, j: int| 0 <= i < j < f.len() implies apart(f[i], f[j]) by {
                if j == f.len() - 1 {
                    lemma_filter_within(rest, p, i);
                    let k = choose|k: int| 0 <= k < rest.len() && rest[k] == g[i];
                    assert(apart(s[k], s[s.len() - 1]));
                }
            }
        } else {
            assert(f == g);
        }
    }
}

/// Every link that a filter keeps satisfies `q` if every link did.
proof fn lemma_filter_all(s: Seq<Link>, p: spec_fn(Link) -> bool, q: spec_fn(Link) -> bool)
    requires
        forall|i: int| 0 <= i < s.len() ==> q(s[i]),
    ensures
        forall|i: int| 0 <= i < s.filter(p).len() ==> q(s.filter(p)[i]),
{
    assert forall|i: int| 0 <= i < s.filter(p).len() implies q(s.filter(p)[i]) by {
        lemma_filter_within(s, p, i);
    }
}

/// Among links pairwise apart, a filter on one id or one display keeps at
/// most one.
proof fn lemma_filter_single(s: Seq<Link>, p: spec_fn(Link) -> bool)
    requires
        forall|i: int, j: int| 0 <= i < j < s.len() ==> apart(s[i], s[j]),
        (exists|id: u64| p == with_id(id)) || (exists|d: u64| p == on_display(d)),
    ensures
        s.filter(p).len() <= 1,
{
    lemma_filter_apart(s, p);
    let f = s.filter(p);
    if f.len() > 1 {
        assert(p(f[0]) && p(f[1]));
        assert(apart(f[0], f[1]));
        if exists|id: u64| p == with_id(id) {
            let id = choose|id: u64| p == with_id(id);
            assert(f[0].id == id && f[1].id == id);
        } else {
            let d = choose|d: u64| p == on_display(d);
            assert(f[0].display_id == d && f[1].display_id == d);
        }
    }
}

/// No renderer id occurs twice.
pub open spec fn unique_renderer_ids<H>(rs: Seq<(String, H)>) -> bool {
    forall|i: int, j: int| 0 <= i < j < rs.len() ==> rs[i].0@ != rs[j].0@
}

/// No two links share an id or a display.
pub open spec fn links_apart(links: Seq<Link>) -> bool {
    forall|i: int, j: int| 0 <= i < j < links.len() ==> apart(links[i], links[j])
}

/// Every link id lies in `1..=next_link_id`.
pub open spec fn ids_issued(links: Seq<Link>, next_link_id: u64) -> bool {
    forall|i: int| 0 <= i < links.len() ==> 0 < #[trigger] links[i].id <= next_link_id
}


/// Whether relinking the displays in `target` (every display when `None`)
/// leaves renderer `rid` with no enabled link: each of its enabled links
/// goes to a target display. A renderer without enabled links qualifies.
pub open spec fn fully_replaced(links: Seq<Link>, rid: Seq<char>, target: Option<Seq<u64>>) -> bool {
    forall|i: int|
        0 <= i < links.len() && (#[trigger] links[i]).renderer_id@ == rid && links[i].enabled ==> match target {
            None => true,
            Some(t) => t.contains(links[i].display_id),
        }
}

/// A target list as a sequence.
pub open spec fn target_view(target: Option<&[u64]>) -> Option<Seq<u64>> {
    match target {
        Some(t) => Some(t@),
        None => None,
    }
}

/// The registered renderers that `fully_replaced` holds of.
pub open spec fn replaced_by<H>(links: Seq<Link>, target: Option<Seq<u64>>) -> spec_fn((String, H)) -> bool {
    |p: (String, H)| fully_replaced(links, p.0@, target)
}

/// Abstract state of a routing table.
pub struct RoutingView<H> {
    /// The last link id handed out (zero before the first).
    pub next_link_id: u64,
    /// Registered renderers by id, each id once.
    pub renderers: Seq<(String, H)>,
    /// The links, in the order the per-renderer listings give them.
    pub links: Seq<Link>,
}

impl<H> RoutingView<H> {
    /// Renderer ids are unique; links are pairwise apart (distinct ids and
    /// distinct displays); every link id is one already handed out.
    pub open spec fn wf(self) -> bool {
        &&& unique_renderer_ids(self.renderers)
        &&& links_apart(self.links)
        &&& ids_issued(self.links, self.next_link_id)
    }

    /// Whether a renderer with this id is registered.
    pub open spec fn has_renderer(self, id: Seq<char>) -> bool {
        exists|i: int| 0 <= i < self.renderers.len() && #[trigger] self.renderers[i].0@ == id
    }

    /// Whether a link with this id exists.
    pub open spec fn has_link(self, link_id: u64) -> bool {
        exists|i: int| 0 <= i < self.links.len() && #[trigger] self.links[i].id == link_id
    }
}

/// Renderers and the links from renderers to displays.
pub struct RoutingTable<H> {
    next_link_id: u64,
    renderers: Vec<(String, H)>,
    links: Vec<Link>,
}

impl<H> View for RoutingTable<H> {
    type V = RoutingView<H>;

    closed spec fn view(&self) -> RoutingView<H> {
        RoutingView { next_link_id: self.next_link_id, renderers: self.renderers@, links: self.links@ }
    }
}

impl<H> RoutingTable<H> {
    #[verifier::type_invariant]
    spec fn well_formed(self) -> bool {
        self@.wf()
    }
}

impl<H: RendererClearColor> RoutingTable<H> {
    /// An empty table.
    pub fn new() -> (r: Self)
        ensures
            r@.next_link_id == 0,
            r@.renderers == Seq::<(String, H)>::empty(),
            r@.links == Seq::<Link>::empty(),
    {
        RoutingTable { next_link_id: 0, renderers: Vec::new(), links: Vec::new() }
    }

    /// The links feeding `display_id`: at most one.
    pub fn links_for_display(&self, display_id: u64) -> (r: Vec<Link>)
        ensures
            r@ == self@.links.filter(on_display(display_id)),
            r@.len() <= 1,
    {
        proof {
            use_type_invariant(self);
            lemma_filter_single(self@.links, on_display(display_id));
        }
        let (_, taken) = split_links(&self.links, &Selector::Display(display_id));
        proof {
            assert(taken_by(Selector::Display(display_id)) =~= on_display(display_id));
        }
        taken
    }

    /// The links fed by `renderer_id`, in the order they came to it.
    pub fn links_for_renderer(&self, renderer_id: &str) -> (r: Vec<Link>)
        ensures
            r@ == self@.links.filter(of_renderer(renderer_id@)),
    {
        let s = Selector::Renderer(owned(renderer_id));
        let (_, taken) = split_links(&self.links, &s);
        proof {
            assert(taken_by(s) =~= of_renderer(renderer_id@));
        }
        taken
    }

    /// The link with this id.
    pub fn get_link(&self, link_id: u64) -> (r: Option<&Link>)
        ensures
            r is None <==> !self@.has_link(link_id),
            r matches Some(l) ==> l.id == link_id && self@.links.contains(*l),
    {
        let mut i: usize = 0;
        while i < self.links.len()
            invariant
                0 <= i <= self@.links.len(),
                forall|k: int| 0 <= k < i ==> self@.links[k].id != link_id,
            decreases self@.links.len() - i,
        {
            if self.links[i].id == link_id {
                return Some(&self.links[i]);
            }
            i = i + 1;
        }
        None
    }

    /// Where the renderer with this id is registered.
    fn renderer_index(&self, id: &str) -> (r: Option<usize>)
        ensures
            r matches Some(i) ==> i < self@.renderers.len() && self@.renderers[i as int].0@ == id@,
            r is None ==> !self@.has_renderer(id@),
    {
        let mut i: usize = 0;
        while i < self.renderers.len()
            invariant
                0 <= i <= self@.renderers.len(),
                forall|k: int| 0 <= k < i ==> self@.renderers[k].0@ != id@,
            decreases self@.renderers.len() - i,
        {
            if str_eq(self.renderers[i].0.as_str(), id) {
                return Some(i);
            }
            i = i + 1;
        }
        None
    }

    /// Registers a renderer under `id`, replacing the handle of one already
    /// registered under it.
    pub fn add_renderer(&mut self, id: String, handle: H)
        ensures
            final(self)@.links == old(self)@.links,
            final(self)@.next_link_id == old(self)@.next_link_id,
            !old(self)@.has_renderer(id@) ==> final(self)@.renderers == old(self)@.renderers.push((id, handle)),
            forall|i: int|
                0 <= i < old(self)@.renderers.len() && #[trigger] old(self)@.renderers[i].0@ == id@
                    ==> final(self)@.renderers == old(self)@.renderers.update(i, (id, handle)),
    {
        proof {
            use_type_invariant(&*self);
        }
        let ghost before = self@.renderers;
        let found = self.renderer_index(id.as_str());
        let mut rs: Vec<(String, H)> = Vec::new();
        std::mem::swap(&mut rs, &mut self.renderers);
        match found {
            Some(i) => {
                rs[i] = (id, handle);
                proof {
                    assert forall|a: int, b: int| 0 <= a < b < rs@.len() implies rs@[a].0@ != rs@[b].0@ by {
                        if a == i as int {
                            assert(before[b].0@ != before[i as int].0@);
                        } else if b == i as int {
                            assert(before[a].0@ != before[i as int].0@);
                        }
                    }
                }
            },
            None => {
                rs.push((id, handle));
                proof {
                    assert forall|a: int, b: int| 0 <= a < b < rs@.len() implies rs@[a].0@ != rs@[b].0@ by {
                        if b == before.len() {
                            assert(before[a].0@ != id@);
                        }
                    }
                }
            },
        }
        self.renderers = rs;
    }

    /// The handle registered under `id`.
    pub fn get_renderer(&self, id: &str) -> (r: Option<&H>)
        ensures
            r is None <==> !self@.has_renderer(id@),
            r matches Some(h) ==> exists|i: int|
                0 <= i < self@.renderers.len() && #[trigger] self@.renderers[i].0@ == id@
                    && self@.renderers[i].1 == *h,
    {
        match self.renderer_index(id) {
            Some(i) => Some(&self.renderers[i].1),
            None => None,
        }
    }

    /// The ids of the registered renderers.
    pub fn renderer_ids(&self) -> (r: Vec<String>)
        ensures
            r@ == self@.renderers.map_values(|p: (String, H)| p.0),
    {
        let mut out: Vec<String> = Vec::new();
        let mut i: usize = 0;
        while i < self.renderers.len()
            invariant
                0 <= i <= self@.renderers.len(),
                out@ == self@.renderers.take(i as int).map_values(|p: (String, H)| p.0),
            decreases self@.renderers.len() - i,
        {
            out.push(self.renderers[i].0.clone());
            proof {
                assert(self@.renderers.take(i + 1).map_values(|p: (String, H)| p.0)
                    =~= self@.renderers.take(i as int).map_values(|p: (String, H)| p.0).push(self@.renderers[i as int].0));
            }
            i = i + 1;
        }
        proof {
            assert(self@.renderers.take(self@.renderers.len() as int) =~= self@.renderers);
        }
        out
    }

    /// The least registered renderer id (code-point order), the one a new
    /// display is first linked to.
    pub fn first_renderer(&self) -> (r: Option<String>)
        ensures
            r is None <==> self@.renderers.len() == 0,
            r matches Some(k) ==> {
                &&& self@.has_renderer(k@)
                &&& forall|i: int| 0 <= i < self@.renderers.len() ==> chars_order(k@, #[trigger] self@.renderers[i].0@) <= 0
            },
    {
        let n = self.renderers.len();
        if n == 0 {
            return None;
        }
        let mut best: usize = 0;
        let mut best_chars = chars_of(self.renderers[0].0.as_str());
        proof {
            lemma_chars_order(best_chars@, best_chars@);
        }
        let mut i: usize = 1;
        while i < n
            invariant
                n == self@.renderers.len(),
                1 <= i <= n,
                best < n,
                best_chars@ == self@.renderers[best as int].0@,
                forall|k: int| 0 <= k < i ==> chars_order(best_chars@, #[trigger] self@.renderers[k].0@) <= 0,
            decreases n - i,
        {
            let c = chars_of(self.renderers[i].0.as_str());
            let ord = compare_chars(c.as_slice(), best_chars.as_slice());
            if ord < 0 {
                proof {
                    lemma_chars_order(c@, best_chars@);
                    lemma_chars_order(c@, c@);
                    assert forall|k: int| 0 <= k < i + 1 implies chars_order(c@, #[trigger] self@.renderers[k].0@) <= 0 by {
                        if k < i {
                            lemma_chars_order_trans(c@, best_chars@, self@.renderers[k].0@);
                        }
                    }
                }
                best = i;
                best_chars = c;
            } else {
                proof {
                    lemma_chars_order(c@, best_chars@);
                }
            }
            i = i + 1;
        }
        Some(self.renderers[best].0.clone())
    }

    /// Unregisters the renderer `id` and drops its links; hands back the id
    /// and display of each link dropped, in the renderer's link order.
    pub fn remove_renderer(&mut self, id: &str) -> (r: Vec<(u64, u64)>)
        ensures
            final(self)@.next_link_id == old(self)@.next_link_id,
            final(self)@.links == old(self)@.links.filter(not_of_renderer(id@)),
            r@ == old(self)@.links.filter(of_renderer(id@)).map_values(|l: Link| (l.id, l.display_id)),
            !old(self)@.has_renderer(id@) ==> final(self)@.renderers == old(self)@.renderers,
            forall|i: int|
                0 <= i < old(self)@.renderers.len() && #[trigger] old(self)@.renderers[i].0@ == id@
                    ==> final(self)@.renderers == old(self)@.renderers.remove(i),
    {
        proof {
            use_type_invariant(&*self);
        }
        let ghost before = self@.renderers;
        let ghost before_links = self@.links;
        if let Some(i) = self.renderer_index(id) {
            let mut rs: Vec<(String, H)> = Vec::new();
            std::mem::swap(&mut rs, &mut self.renderers);
            let _gone = rs.remove(i);
            proof {
                assert forall|a: int, b: int| 0 <= a < b < rs@.len() implies rs@[a].0@ != rs@[b].0@ by {
                    let a0 = if a < i { a } else { a + 1 };
                    let b0 = if b < i { b } else { b + 1 };
                    assert(rs@[a] == before[a0]);
                    assert(rs@[b] == before[b0]);
                }
            }
            self.renderers = rs;
        }
        let sel = Selector::Renderer(owned(id));
        let mut old_links: Vec<Link> = Vec::new();
        std::mem::swap(&mut old_links, &mut self.links);
        let (kept, taken) = split_links(&old_links, &sel);
        proof {
            assert(left_by(sel) =~= not_of_renderer(id@));
            assert(taken_by(sel) =~= of_renderer(id@));
            lemma_filter_apart(before_links, not_of_renderer(id@));
            lemma_filter_all(before_links, not_of_renderer(id@), |l: Link| 0 < l.id <= self.next_link_id);
        }
        self.links = kept;
        let mut out: Vec<(u64, u64)> = Vec::new();
        let mut k: usize = 0;
        while k < taken.len()
            invariant
                0 <= k <= taken@.len(),
                out@ == taken@.take(k as int).map_values(|l: Link| (l.id, l.display_id)),
            decreases taken@.len() - k,
        {
            out.push((taken[k].id, taken[k].display_id));
            proof {
                assert(taken@.take(k + 1).map_values(|l: Link| (l.id, l.display_id))
                    =~= taken@.take(k as int).map_values(|l: Link| (l.id, l.display_id)).push((taken@[k as int].id, taken@[k as int].display_id)));
            }
            k = k + 1;
        }
        proof {
            assert(taken@.take(taken@.len() as int) =~= taken@);
        }
        out
    }

    /// Links `renderer_id` to `display_id` and returns the new link's id,
    /// larger than every id before it. The display's previous link, if
    /// any, is dropped first. The link takes the renderer's clear colour as
    /// its handle reports it now, or opaque black if no such renderer is
    /// registered.
    pub fn add_link(&mut self, renderer_id: String, display_id: u64) -> (r: u64)
        requires
            old(self)@.next_link_id < u64::MAX,
        ensures
            r == old(self)@.next_link_id + 1,
            forall|i: int| 0 <= i < old(self)@.links.len() ==> (#[trigger] old(self)@.links[i]).id < r,
            final(self)@.next_link_id == r,
            final(self)@.renderers == old(self)@.renderers,
            final(self)@.links == old(self)@.links.filter(off_display(display_id)).push(
                fresh_link(r, renderer_id, display_id, final(self)@.links.last().clear_rgba),
            ),
            !old(self)@.has_renderer(renderer_id@) ==> final(self)@.links.last().clear_rgba@
                == seq![0u32, 0u32, 0u32, F32_ONE_BITS],
            forall|i: int|
                0 <= i < old(self)@.renderers.len() && (#[trigger] old(self)@.renderers[i]).0@ == renderer_id@
                    ==> final(self)@.links.last().clear_rgba == old(self)@.renderers[i].1.spec_clear_rgba(),
    {
        proof {
            use_type_invariant(&*self);
        }
        let ghost before_links = self@.links;
        let clear_rgba = match self.renderer_index(renderer_id.as_str()) {
            Some(i) => self.renderers[i].1.clear_rgba_bits(),
            None => default_clear_rgba(),
        };
        let sel = Selector::Display(display_id);
        let mut old_links: Vec<Link> = Vec::new();
        std::mem::swap(&mut old_links, &mut self.links);
        let (mut kept, _dropped) = split_links(&old_links, &sel);
        let id = self.next_link_id + 1;
        let link = Link {
            id,
            renderer_id,
            display_id,
            enabled: true,
            src_rect: full_src(),
            dst_rect: full_dst(),
            transform: 0,
            clear_rgba,
            z_order: 0,
        };
        proof {
            assert(left_by(sel) =~= off_display(display_id));
            lemma_filter_apart(before_links, off_display(display_id));
            lemma_filter_all(before_links, off_display(display_id), |l: Link| 0 < l.id <= self.next_link_id);
            let f = before_links.filter(off_display(display_id));
            assert forall|a: int, b: int| 0 <= a < b < f.push(link).len() implies apart(f.push(link)[a], f.push(link)[b]) by {
                if b == f.len() {
                    assert(off_display(display_id)(f[a]));
                }
            }
        }
        kept.push(link);
        self.next_link_id = id;
        self.links = kept;
        id
    }

    /// Points each display of `display_ids` that exists (is in `present`)
    /// at `renderer_id`: its earlier link gives way to a fresh, enabled one.
    /// Returns those displays, in order; every other display keeps what
    /// feeds it.
    pub fn relink_displays_to(&mut self, display_ids: &[u64], present: &[u64], renderer_id: &str) -> (applied: Vec<u64>)
        requires
            old(self)@.next_link_id + display_ids@.len() <= u64::MAX,
        ensures
            applied@ == display_ids@.filter(present_in(present@)),
            final(self)@.renderers == old(self)@.renderers,
            final(self)@.next_link_id == old(self)@.next_link_id + applied@.len(),
            forall|d: u64|
                #![trigger final(self)@.links.filter(on_display(d))]
                applied@.contains(d) ==> {
                    let fed = final(self)@.links.filter(on_display(d));
                    &&& fed.len() == 1
                    &&& fed[0].renderer_id@ == renderer_id@
                    &&& fed[0].enabled
                },
            forall|d: u64|
                !applied@.contains(d) ==> #[trigger] final(self)@.links.filter(on_display(d)) == old(
                    self,
                )@.links.filter(on_display(d)),
    {
        let ghost start = self@;
        let mut applied: Vec<u64> = Vec::new();
        let mut i: usize = 0;
        proof {
            reveal(Seq::filter);
            assert(display_ids@.take(0) =~= Seq::<u64>::empty());
        }
        while i < display_ids.len()
            invariant
                0 <= i <= display_ids@.len(),
                applied@ == display_ids@.take(i as int).filter(present_in(present@)),
                applied@.len() <= i,
                start.next_link_id + display_ids@.len() <= u64::MAX,
                self@.renderers == start.renderers,
                self@.next_link_id == start.next_link_id + applied@.len(),
                forall|d: u64|
                    #![trigger self@.links.filter(on_display(d))]
                    applied@.contains(d) ==> {
                        let fed = self@.links.filter(on_display(d));
                        &&& fed.len() == 1
                        &&& fed[0].renderer_id@ == renderer_id@
                        &&& fed[0].enabled
                    },
                forall|d: u64|
                    !applied@.contains(d) ==> #[trigger] self@.links.filter(on_display(d)) == start.links.filter(
                        on_display(d),
                    ),
            decreases display_ids@.len() - i,
        {
            proof {
                assert(display_ids@.take(i + 1) =~= display_ids@.take(i as int).push(display_ids@[i as int]));
                display_ids@.take(i as int).lemma_filter_push(display_ids@[i as int], present_in(present@));
            }
            let d = display_ids[i];
            if contains_id(present, d) {
                let ghost links_before = self@.links;
                let ghost applied_before = applied@;
                let _id = self.add_link(owned(renderer_id), d);
                applied.push(d);
                proof {
                    let l = self@.links.last();
                    assert(self@.links == links_before.filter(off_display(d)).push(l));
                    law_added_link_is_the_display_link(links_before, d, l);
                    assert forall|e: u64| applied@.contains(e) implies {
                        let fed = #[trigger] self@.links.filter(on_display(e));
                        &&& fed.len() == 1
                        &&& fed[0].renderer_id@ == renderer_id@
                        &&& fed[0].enabled
                    } by {
                        if e != d {
                            lemma_other_display_unchanged(links_before, d, l, e);
                            assert(applied_before.contains(e)) by {
                                let k = choose|k: int| 0 <= k < applied@.len() && applied@[k] == e;
                                assert(applied_before[k] == e);
                            }
                        }
                    }
                    assert forall|e: u64| !applied@.contains(e) implies #[trigger] self@.links.filter(on_display(e))
                        == start.links.filter(on_display(e)) by {
                        assert(e != d) by {
                            assert(applied@[applied@.len() - 1] == d);
                        }
                        lemma_other_display_unchanged(links_before, d, l, e);
                        assert(!applied_before.contains(e)) by {
                            if applied_before.contains(e) {
                                let k = choose|k: int| 0 <= k < applied_before.len() && applied_before[k] == e;
                                assert(applied@[k] == e);
                            }
                        }
                    }
                }
            }
            i = i + 1;
        }
        proof {
            assert(display_ids@.take(display_ids@.len() as int) =~= display_ids@);
        }
        applied
    }

    /// Where the link of `display_id` is, if it has one.
    fn display_link_index(&self, display_id: u64) -> (r: Option<usize>)
        ensures
            r matches Some(i) ==> i < self@.links.len() && self@.links[i as int].display_id == display_id,
            r is None ==> forall|k: int| 0 <= k < self@.links.len() ==> (#[trigger] self@.links[k]).display_id != display_id,
    {
        let mut i: usize = 0;
        while i < self.links.len()
            invariant
                0 <= i <= self@.links.len(),
                forall|k: int| 0 <= k < i ==> (#[trigger] self@.links[k]).display_id != display_id,
            decreases self@.links.len() - i,
        {
            if self.links[i].display_id == display_id {
                return Some(i);
            }
            i = i + 1;
        }
        None
    }

    /// Enables the link of each listed display exactly when neither the
    /// manual stop nor the display's automatic stop holds. Returns the
    /// displays whose link changed and the renderers of links enabled again.
    pub fn apply_activation(&mut self, displays: &[(u64, bool)], manual_stopped: bool) -> (r: (Vec<u64>, Vec<String>))
        requires
            display_ids_unique(displays@),
        ensures
            final(self)@.renderers == old(self)@.renderers,
            final(self)@.next_link_id == old(self)@.next_link_id,
            final(self)@.links == old(self)@.links.map(activation(displays@, manual_stopped)),
            forall|d: u64| #[trigger] r.0@.contains(d) <==> flipped_display(old(self)@.links, displays@, manual_stopped, d),
            forall|x: Seq<char>|
                #[trigger] names_contain(r.1@, x) <==> reenabled_renderer(old(self)@.links, displays@, manual_stopped, x),
    {
        proof {
            use_type_invariant(&*self);
        }
        let ghost start = self@.links;
        let mut changed: Vec<u64> = Vec::new();
        let mut reenabled: Vec<String> = Vec::new();
        let mut i: usize = 0;
        proof {
            assert(displays@.take(0) =~= Seq::<(u64, bool)>::empty());
            assert(start.map(activation(displays@.take(0), manual_stopped)) =~= start);
        }
        while i < displays.len()
            invariant
                0 <= i <= displays@.len(),
                display_ids_unique(displays@),
                links_apart(start),
                self@.renderers == old(self)@.renderers,
                self@.next_link_id == old(self)@.next_link_id,
                start == old(self)@.links,
                self@.links == start.map(activation(displays@.take(i as int), manual_stopped)),
                forall|d: u64|
                    #[trigger] changed@.contains(d) <==> flipped_display(start, displays@.take(i as int), manual_stopped, d),
                forall|x: Seq<char>|
                    #[trigger] names_contain(reenabled@, x) <==> reenabled_renderer(
                        start,
                        displays@.take(i as int),
                        manual_stopped,
                        x,
                    ),
            decreases displays@.len() - i,
        {
            let (d, stop) = displays[i];
            let enabled = !manual_stopped && !stop;
            let ghost before = displays@.take(i as int);
            let ghost after = displays@.take(i + 1);
            proof {
                assert(after =~= before.push((d, stop)));
                assert forall|j: int| 0 <= j < before.len() implies (#[trigger] before[j]).0 != d by {
                    assert(displays@[j].0 != displays@[i as int].0);
                }
                lemma_listed_none(before, d);
                assert forall|y: u64| #[trigger] listed_stop(after, y) == if y == d {
                    Some(stop)
                } else {
                    listed_stop(before, y)
                } by {
                    lemma_listed_push(before, (d, stop), y);
                }
            }
            match self.display_link_index(d) {
                Some(k) => {
                    let ghost cur = self@.links;
                    let ghost changed_before = changed@;
                    let ghost reenabled_before = reenabled@;
                    let was = self.links[k].enabled;
                    proof {
                        assert(cur[k as int] == start.map(activation(before, manual_stopped))[k as int]);
                        assert(cur[k as int] == activated(start[k as int], before, manual_stopped));
                        assert(start[k as int].display_id == d);
                        assert(cur[k as int] == start[k as int]);
                    }
                    if was != enabled {
                        let mut link = self.links[k].copy();
                        link.enabled = enabled;
                        self.replace_link(k, link);
                        changed.push(d);
                        if enabled {
                            reenabled.push(owned(self.links[k].renderer_id.as_str()));
                        }
                    }
                    proof {
                        let sk = start[k as int];
                        assert forall|j: int| 0 <= j < start.len() && j != k implies start[j].display_id != d by {
                            if j < k {
                                assert(apart(start[j], sk));
                            } else {
                                assert(apart(sk, start[j]));
                            }
                        }
                        assert(self@.links =~= start.map(activation(after, manual_stopped)));
                        lemma_activation_step(start, before, d, stop, manual_stopped);
                        lemma_flip_at(start, after, manual_stopped, k as int);
                        assert(activated(sk, after, manual_stopped).enabled == enabled);
                        if was != enabled {
                            lemma_push_contains(changed_before, d);
                            assert(changed_before.push(d) =~= changed@);
                        } else {
                            assert(changed_before =~= changed@);
                        }
                        if was != enabled && enabled {
                            lemma_push_names(reenabled_before, reenabled@.last());
                            assert(reenabled_before.push(reenabled@.last()) =~= reenabled@);
                            assert(reenabled@.last()@ == sk.renderer_id@);
                        } else {
                            assert(reenabled_before =~= reenabled@);
                        }
                        assert forall|y: u64| #[trigger] changed@.contains(y) <==> flipped_display(
                            start,
                            after,
                            manual_stopped,
                            y,
                        ) by {
                            if y == d {
                                assert(sk.display_id == y);
                            }
                        }
                        assert forall|x: Seq<char>| #[trigger] names_contain(reenabled@, x) <==> reenabled_renderer(
                            start,
                            after,
                            manual_stopped,
                            x,
                        ) by {
                            if exists|m: int|
                                0 <= m < start.len() && (#[trigger] start[m]).renderer_id@ == x && start[m].display_id == d
                                    && !start[m].enabled && !manual_stopped && !stop {
                                let m = choose|m: int|
                                    0 <= m < start.len() && (#[trigger] start[m]).renderer_id@ == x && start[m].display_id
                                        == d && !start[m].enabled && !manual_stopped && !stop;
                                assert(start[m].display_id == sk.display_id);
                                assert(m == k);
                            }
                            if sk.renderer_id@ == x && !was && enabled {
                                assert(start[k as int].renderer_id@ == x);
                            }
                        }
                    }
                },
                None => {
                    proof {
                        assert forall|j: int| 0 <= j < start.len() implies start[j].display_id != d by {
                            assert(self@.links[j] == start.map(activation(before, manual_stopped))[j]);
                            assert(self@.links[j] == activated(start[j], before, manual_stopped));
                        }
                        assert(self@.links =~= start.map(activation(after, manual_stopped)));
                        lemma_activation_step(start, before, d, stop, manual_stopped);
                        assert(!flipped_display(start, after, manual_stopped, d));
                        assert forall|x: Seq<char>| #[trigger] names_contain(reenabled@, x) <==> reenabled_renderer(
                            start,
                            after,
                            manual_stopped,
                            x,
                        ) by {
                            if exists|m: int|
                                0 <= m < start.len() && (#[trigger] start[m]).renderer_id@ == x && start[m].display_id == d
                                    && !start[m].enabled && !manual_stopped && !stop {
                                let m = choose|m: int|
                                    0 <= m < start.len() && (#[trigger] start[m]).renderer_id@ == x && start[m].display_id
                                        == d && !start[m].enabled && !manual_stopped && !stop;
                                assert(start[m].display_id != d);
                            }
                        }
                    }
                },
            }
            i = i + 1;
        }
        proof {
            assert(displays@.take(displays@.len() as int) =~= displays@);
        }
        (changed, reenabled)
    }

    /// Whether `renderer_id` feeds some link and every link it feeds is
    /// disabled: the renderer has nothing left to show.
    pub fn all_links_disabled(&self, renderer_id: &str) -> (r: bool)
        ensures
            r == fully_disabled(self@.links, renderer_id@),
    {
        let mut found = false;
        let mut i: usize = 0;
        while i < self.links.len()
            invariant
                0 <= i <= self@.links.len(),
                found == exists|k: int| 0 <= k < i && (#[trigger] self@.links[k]).renderer_id@ == renderer_id@,
                forall|k: int| 0 <= k < i && (#[trigger] self@.links[k]).renderer_id@ == renderer_id@ ==> !self@.links[k].enabled,
            decreases self@.links.len() - i,
        {
            if str_eq(self.links[i].renderer_id.as_str(), renderer_id) {
                if self.links[i].enabled {
                    return false;
                }
                found = true;
            }
            i = i + 1;
        }
        found
    }

    /// Changes the given geometry fields of a link; true iff the link exists
    /// and some field took a new value.
    pub fn update_link_geometry(
        &mut self,
        link_id: u64,
        src: Option<LinkSrcRect>,
        dst: Option<LinkDstRect>,
        transform: Option<u32>,
        clear_rgba: Option<[u32; 4]>,
        z_order: Option<i32>,
    ) -> (r: bool)
        ensures
            !old(self)@.has_link(link_id) ==> !r && final(self)@ == old(self)@,
            forall|i: int|
                0 <= i < old(self)@.links.len() && #[trigger] old(self)@.links[i].id == link_id ==> {
                    &&& final(self)@.links == old(self)@.links.update(
                        i,
                        reshaped(old(self)@.links[i], src, dst, transform, clear_rgba, z_order),
                    )
                    &&& r == reshape_changes(old(self)@.links[i], src, dst, transform, clear_rgba, z_order)
                },
            final(self)@.renderers == old(self)@.renderers,
            final(self)@.next_link_id == old(self)@.next_link_id,
    {
        proof {
            use_type_invariant(&*self);
        }
        let ghost before = self@.links;
        let found = self.link_index(link_id);
        let i = match found {
            Some(i) => i,
            None => return false,
        };
        let mut link = self.links[i].copy();
        let mut changed = false;
        if let Some(v) = src {
            if link.src_rect != v {
                link.src_rect = v;
                changed = true;
            }
        }
        if let Some(v) = dst {
            if link.dst_rect != v {
                link.dst_rect = v;
                changed = true;
            }
        }
        if let Some(v) = transform {
            if link.transform != v {
                link.transform = v;
                changed = true;
            }
        }
        if let Some(v) = clear_rgba {
            if !same_rgba(&link.clear_rgba, &v) {
                link.clear_rgba = v;
                changed = true;
            }
        }
        if let Some(v) = z_order {
            if link.z_order != v {
                link.z_order = v;
                changed = true;
            }
        }
        proof {
            assert(link == reshaped(before[i as int], src, dst, transform, clear_rgba, z_order));
        }
        self.replace_link(i, link);
        changed
    }

    /// Enables or disables a link; true iff the link exists and its state
    /// changed.
    pub fn set_link_enabled(&mut self, link_id: u64, enabled: bool) -> (r: bool)
        ensures
            !old(self)@.has_link(link_id) ==> !r && final(self)@ == old(self)@,
            forall|i: int|
                0 <= i < old(self)@.links.len() && #[trigger] old(self)@.links[i].id == link_id ==> {
                    &&& r == (old(self)@.links[i].enabled != enabled)
                    &&& final(self)@.links == old(self)@.links.update(
                        i,
                        (Link { enabled, ..old(self)@.links[i] }),
                    )
                },
            final(self)@.renderers == old(self)@.renderers,
            final(self)@.next_link_id == old(self)@.next_link_id,
    {
        proof {
            use_type_invariant(&*self);
        }
        let ghost before = self@.links;
        let i = match self.link_index(link_id) {
            Some(i) => i,
            None => return false,
        };
        if self.links[i].enabled == enabled {
            proof {
                assert(before.update(i as int, (Link { enabled, ..before[i as int] })) =~= before);
            }
            return false;
        }
        let mut link = self.links[i].copy();
        link.enabled = enabled;
        self.replace_link(i, link);
        true
    }

    /// Where the link with this id is; with unique ids, the only index
    /// holding it.
    fn link_index(&self, link_id: u64) -> (r: Option<usize>)
        ensures
            r is None ==> !self@.has_link(link_id),
            r matches Some(i) ==> i < self@.links.len() && forall|k: int|
                0 <= k < self@.links.len() ==> (#[trigger] self@.links[k].id == link_id <==> k == i),
    {
        proof {
            use_type_invariant(self);
        }
        let mut i: usize = 0;
        while i < self.links.len()
            invariant
                0 <= i <= self@.links.len(),
                forall|k: int| 0 <= k < i ==> self@.links[k].id != link_id,
            decreases self@.links.len() - i,
        {
            if self.links[i].id == link_id {
                proof {
                    use_type_invariant(self);
                    assert forall|k: int| 0 <= k < self@.links.len() implies (#[trigger] self@.links[k].id
                        == link_id <==> k == i) by {
                        if k > i {
                            assert(apart(self@.links[i as int], self@.links[k]));
                        }
                    }
                }
                return Some(i);
            }
            i = i + 1;
        }
        None
    }

    /// Puts `link` at index `i`, in place of a link with the same id and
    /// display.
    fn replace_link(&mut self, i: usize, link: Link)
        requires
            i < old(self)@.links.len(),
            link.id == old(self)@.links[i as int].id,
            link.display_id == old(self)@.links[i as int].display_id,
        ensures
            final(self)@.links == old(self)@.links.update(i as int, link),
            final(self)@.renderers == old(self)@.renderers,
            final(self)@.next_link_id == old(self)@.next_link_id,
    {
        proof {
            use_type_invariant(&*self);
        }
        let ghost before = self@.links;
        let mut links: Vec<Link> = Vec::new();
        std::mem::swap(&mut links, &mut self.links);
        links[i] = link;
        proof {
            assert forall|a: int, b: int| 0 <= a < b < links@.len() implies apart(links@[a], links@[b]) by {
                assert(apart(before[a], before[b]));
            }
            assert forall|a: int| 0 <= a < links@.len() implies 0 < #[trigger] links@[a].id <= self.next_link_id by {
                assert(0 < before[a].id <= self.next_link_id);
            }
        }
        self.links = links;
    }

    /// Hands every link of `old_renderer_id` to `new_renderer_id`, keeping
    /// each link's id, display, geometry and state; they come after the
    /// new renderer's own links, in their order. Returns the displays
    /// concerned, ascending. With the same id on both sides nothing
    /// changes, and the displays come in link order.
    pub fn retarget_renderer_links(&mut self, old_renderer_id: &str, new_renderer_id: &str) -> (r: Vec<u64>)
        ensures
            old_renderer_id@ == new_renderer_id@ ==> {
                &&& final(self)@ == old(self)@
                &&& r@ == displays_of(old(self)@.links.filter(of_renderer(old_renderer_id@)))
            },
            old_renderer_id@ != new_renderer_id@ ==> {
                let kept = old(self)@.links.filter(not_of_renderer(old_renderer_id@));
                let moved = old(self)@.links.filter(of_renderer(old_renderer_id@));
                &&& final(self)@.links.len() == kept.len() + moved.len()
                &&& final(self)@.links.take(kept.len() as int) == kept
                &&& forall|k: int| 0 <= k < moved.len() ==> retargeted(
                    moved[k],
                    #[trigger] final(self)@.links[kept.len() + k],
                    new_renderer_id@,
                )
                &&& strictly_ascending(r@)
                &&& forall|x: u64| r@.contains(x) <==> displays_of(moved).contains(x)
                &&& final(self)@.renderers == old(self)@.renderers
                &&& final(self)@.next_link_id == old(self)@.next_link_id
            },
    {
        proof {
            use_type_invariant(&*self);
        }
        let ghost before = self@.links;
        if str_eq(old_renderer_id, new_renderer_id) {
            let links = self.links_for_renderer(old_renderer_id);
            return displays_in_order(&links);
        }
        let sel = Selector::Renderer(owned(old_renderer_id));
        let mut old_links: Vec<Link> = Vec::new();
        std::mem::swap(&mut old_links, &mut self.links);
        let (mut kept, taken) = split_links(&old_links, &sel);
        proof {
            assert(left_by(sel) =~= not_of_renderer(old_renderer_id@));
            assert(taken_by(sel) =~= of_renderer(old_renderer_id@));
            lemma_filter_apart(before, not_of_renderer(old_renderer_id@));
            lemma_filter_apart(before, of_renderer(old_renderer_id@));
            lemma_filter_all(before, not_of_renderer(old_renderer_id@), |l: Link| 0 < l.id <= self.next_link_id);
            lemma_filter_all(before, of_renderer(old_renderer_id@), |l: Link| 0 < l.id <= self.next_link_id);
        }
        let ghost kept0 = kept@;
        let n0 = kept.len();
        let mut k: usize = 0;
        while k < taken.len()
            invariant
                0 <= k <= taken@.len(),
                kept0 == before.filter(not_of_renderer(old_renderer_id@)),
                taken@ == before.filter(of_renderer(old_renderer_id@)),
                n0 == kept0.len(),
                kept@.len() == n0 + k,
                kept@.take(n0 as int) == kept0,
                forall|j: int| 0 <= j < k ==> retargeted(taken@[j], #[trigger] kept@[n0 + j], new_renderer_id@),
            decreases taken@.len() - k,
        {
            let mut link = taken[k].copy();
            link.renderer_id = owned(new_renderer_id);
            kept.push(link);
            proof {
                assert(kept@.take(n0 as int) =~= kept0);
            }
            k = k + 1;
        }
        let displays = displays_in_order(&taken);
        let sorted = ascending_distinct(&displays);
        proof {
            let t = taken@;
            let all = kept@;
            assert(all =~= kept0 + all.skip(n0 as int));
            let m = all.skip(n0 as int);
            assert forall|a: int, b: int| 0 <= a < b < m.len() implies apart(m[a], m[b]) by {
                assert(retargeted(t[a], all[n0 + a], new_renderer_id@));
                assert(retargeted(t[b], all[n0 + b], new_renderer_id@));
                assert(apart(t[a], t[b]));
            }
            assert forall|a: int, b: int| 0 <= a < kept0.len() && 0 <= b < m.len() implies apart(kept0[a], m[b]) by {
                assert(retargeted(t[b], all[n0 + b], new_renderer_id@));
                lemma_filter_within(before, not_of_renderer(old_renderer_id@), a);
                lemma_filter_within(before, of_renderer(old_renderer_id@), b);
                let ia = choose|j: int| 0 <= j < before.len() && before[j] == kept0[a];
                let ib = choose|j: int| 0 <= j < before.len() && before[j] == t[b];
                assert(not_of_renderer(old_renderer_id@)(kept0[a]));
                assert(of_renderer(old_renderer_id@)(t[b]));
                assert(ia != ib);
                if ia < ib {
                    assert(apart(before[ia], before[ib]));
                } else {
                    assert(apart(before[ib], before[ia]));
                }
            }
            lemma_concat_apart(kept0, m);
            assert forall|a: int| 0 <= a < all.len() implies 0 < #[trigger] all[a].id <= self.next_link_id by {
                if a >= n0 {
                    let j = a - n0;
                    assert(retargeted(t[j], all[n0 + j], new_renderer_id@));
                    assert(0 < t[j].id <= self.next_link_id);
                }
            }
        }
        self.links = kept;
        sorted
    }

    /// Drops the link feeding `display_id` and hands it back (at most one).
    pub fn remove_display(&mut self, display_id: u64) -> (r: Vec<Link>)
        ensures
            final(self)@.links == old(self)@.links.filter(off_display(display_id)),
            r@ == old(self)@.links.filter(on_display(display_id)),
            r@.len() <= 1,
            final(self)@.renderers == old(self)@.renderers,
            final(self)@.next_link_id == old(self)@.next_link_id,
    {
        proof {
            use_type_invariant(&*self);
            lemma_filter_single(self@.links, on_display(display_id));
        }
        let ghost before = self@.links;
        let sel = Selector::Display(display_id);
        let mut old_links: Vec<Link> = Vec::new();
        std::mem::swap(&mut old_links, &mut self.links);
        let (kept, taken) = split_links(&old_links, &sel);
        proof {
            assert(left_by(sel) =~= off_display(display_id));
            assert(taken_by(sel) =~= on_display(display_id));
            lemma_filter_apart(before, off_display(display_id));
            lemma_filter_all(before, off_display(display_id), |l: Link| 0 < l.id <= self.next_link_id);
        }
        self.links = kept;
        taken
    }

    /// Whether relinking `target` leaves renderer `rid` no enabled link.
    fn renderer_fully_replaced(&self, rid: &str, target: Option<&[u64]>) -> (r: bool)
        ensures
            r == fully_replaced(self@.links, rid@, target_view(target)),
    {
        let ghost tv = match target {
            Some(t) => Some(t@),
            None => None::<Seq<u64>>,
        };
        let mut replaced = true;
        let mut k: usize = 0;
        while k < self.links.len()
            invariant
                0 <= k <= self@.links.len(),
                tv == match target {
                    Some(t) => Some(t@),
                    None => None::<Seq<u64>>,
                },
                replaced == forall|m: int|
                    0 <= m < k && (#[trigger] self@.links[m]).renderer_id@ == rid@ && self@.links[m].enabled
                        ==> match tv {
                        None => true,
                        Some(t) => t.contains(self@.links[m].display_id),
                    },
            decreases self@.links.len() - k,
        {
            let l = &self.links[k];
            if l.enabled && str_eq(l.renderer_id.as_str(), rid) {
                let covered = match target {
                    None => true,
                    Some(t) => contains_u64(t, l.display_id),
                };
                if !covered {
                    replaced = false;
                }
            }
            k = k + 1;
        }
        replaced
    }

    /// The registered renderers (in registry order) that relinking the
    /// displays in `target` (every display when `None`) fully replaces.
    pub fn renderers_fully_replaced_by(&self, target: Option<&[u64]>) -> (r: Vec<String>)
        ensures
            r@ == self@.renderers.filter(replaced_by::<H>(self@.links, target_view(target))).map_values(
                |p: (String, H)| p.0,
            ),
    {
        let ghost tv = target_view(target);
        let ghost pred = replaced_by::<H>(self@.links, tv);
        let mut out: Vec<String> = Vec::new();
        let mut i: usize = 0;
        proof {
            assert(self@.renderers.take(0) =~= Seq::<(String, H)>::empty());
            reveal(Seq::filter);
        }
        while i < self.renderers.len()
            invariant
                0 <= i <= self@.renderers.len(),
                tv == target_view(target),
                pred == replaced_by::<H>(self@.links, tv),
                out@ == self@.renderers.take(i as int).filter(pred).map_values(|p: (String, H)| p.0),
            decreases self@.renderers.len() - i,
        {
            let rid = &self.renderers[i].0;
            let replaced = self.renderer_fully_replaced(rid.as_str(), target);
            proof {
                let rs = self@.renderers;
                assert(rs.take(i + 1) =~= rs.take(i as int).push(rs[i as int]));
                rs.take(i as int).lemma_filter_push(rs[i as int], pred);
            }
            if replaced {
                out.push(rid.clone());
                proof {
                    let rs = self@.renderers;
                    assert(rs.take(i as int).filter(pred).push(rs[i as int]).map_values(|p: (String, H)| p.0)
                        =~= rs.take(i as int).filter(pred).map_values(|p: (String, H)| p.0).push(rs[i as int].0));
                }
            }
            i = i + 1;
        }
        proof {
            assert(self@.renderers.take(self@.renderers.len() as int) =~= self@.renderers);
        }
        out
    }

    /// Removes the link with this id and hands it back.
    pub fn remove_link(&mut self, link_id: u64) -> (r: Option<Link>)
        ensures
            final(self)@.links == old(self)@.links.filter(without_id(link_id)),
            final(self)@.renderers == old(self)@.renderers,
            final(self)@.next_link_id == old(self)@.next_link_id,
            r is None <==> !old(self)@.has_link(link_id),
            r matches Some(l) ==> l.id == link_id && old(self)@.links.contains(l),
    {
        proof {
            use_type_invariant(&*self);
        }
        let ghost before = self@.links;
        let mut old_links: Vec<Link> = Vec::new();
        std::mem::swap(&mut old_links, &mut self.links);
        let (kept, mut taken) = split_links(&old_links, &Selector::Id(link_id));
        proof {
            assert(left_by(Selector::Id(link_id)) =~= without_id(link_id));
            assert(taken_by(Selector::Id(link_id)) =~= with_id(link_id));
            lemma_filter_apart(before, without_id(link_id));
            lemma_filter_all(before, without_id(link_id), |l: Link| 0 < l.id <= self.next_link_id);
        }
        self.links = kept;
        if taken.len() == 0 {
            proof {
                assert forall|k: int| 0 <= k < before.len() implies before[k].id != link_id by {
                    if before[k].id == link_id {
                        assert(before.filter(with_id(link_id)).contains(before[k]));
                    }
                }
            }
            None
        } else {
            proof {
                lemma_filter_within(before, with_id(link_id), 0);
            }
            Some(taken.remove(0))
        }
    }
}

} // verus!
