//! Integer display geometry: canvas rectangles spanning several outputs,
//! their union and origin normalisation, rotations and content anchoring.

use vstd::prelude::*;

verus! {

/// Largest width or height of a canvas member.
pub const MAX_CANVAS_EXTENT: u32 = 1_000_000;

pub const ERR_ZERO_SIZE: &'static str = "canvas member must have a non-zero size";
pub const ERR_TOO_LARGE: &'static str = "canvas member exceeds the supported extent";
pub const ERR_OVERFLOW: &'static str = "canvas member coordinates overflow";
pub const ERR_EXTENT: &'static str = "canvas extent is invalid";

#[derive(Clone, Copy, Debug, PartialEq, Eq, Structural)]
pub struct CanvasRect {
    pub x: i32,
    pub y: i32,
    pub width: u32,
    pub height: u32,
}

impl CanvasRect {
    pub open spec fn spec_valid(self) -> bool {
        0 < self.width <= MAX_CANVAS_EXTENT && 0 < self.height <= MAX_CANVAS_EXTENT
    }

    pub open spec fn spec_right(self) -> int {
        self.x + self.width
    }

    pub open spec fn spec_bottom(self) -> int {
        self.y + self.height
    }

    /// The first rule a member breaks, if any.
    pub open spec fn violation(self) -> Option<&'static str> {
        if self.width == 0 || self.height == 0 {
            Some(ERR_ZERO_SIZE)
        } else if self.width > MAX_CANVAS_EXTENT || self.height > MAX_CANVAS_EXTENT {
            Some(ERR_TOO_LARGE)
        } else {
            None
        }
    }

    /// Checks that the member has a non-zero size within the supported
    /// extent (its far edges always fit in 64 bits).
    pub fn validate(self) -> (r: Result<Self, &'static str>)
        ensures
            match self.violation() {
                Some(e) => r == Err::<CanvasRect, &'static str>(e),
                None => r == Ok::<CanvasRect, &'static str>(self),
            },
            r is Ok <==> self.spec_valid(),
    {
        if self.width == 0 || self.height == 0 {
            return Err(ERR_ZERO_SIZE);
        }
        if self.width > MAX_CANVAS_EXTENT || self.height > MAX_CANVAS_EXTENT {
            return Err(ERR_TOO_LARGE);
        }
        if self.right().is_none() || self.bottom().is_none() {
            return Err(ERR_OVERFLOW);
        }
        Ok(self)
    }

    pub fn right(self) -> (r: Option<i64>)
        ensures
            r == Some(self.spec_right() as i64),
    {
        Some(self.x as i64 + self.width as i64)
    }

    pub fn bottom(self) -> (r: Option<i64>)
        ensures
            r == Some(self.spec_bottom() as i64),
    {
        Some(self.y as i64 + self.height as i64)
    }
}

pub open spec fn all_valid(rects: Seq<CanvasRect>) -> bool {
    forall|i: int| 0 <= i < rects.len() ==> (#[trigger] rects[i]).spec_valid()
}

pub open spec fn min_left(rects: Seq<CanvasRect>) -> int
    recommends
        rects.len() > 0,
    decreases rects.len(),
{
    if rects.len() <= 1 {
        rects[0].x as int
    } else {
        let m = min_left(rects.drop_last());
        if rects.last().x < m {
            rects.last().x as int
        } else {
            m
        }
    }
}

pub open spec fn min_top(rects: Seq<CanvasRect>) -> int
    recommends
        rects.len() > 0,
    decreases rects.len(),
{
    if rects.len() <= 1 {
        rects[0].y as int
    } else {
        let m = min_top(rects.drop_last());
        if rects.last().y < m {
            rects.last().y as int
        } else {
            m
        }
    }
}

pub open spec fn max_right(rects: Seq<CanvasRect>) -> int
    recommends
        rects.len() > 0,
    decreases rects.len(),
{
    if rects.len() <= 1 {
        rects[0].spec_right()
    } else {
        let m = max_right(rects.drop_last());
        if rects.last().spec_right() > m {
            rects.last().spec_right()
        } else {
            m
        }
    }
}

pub open spec fn max_bottom(rects: Seq<CanvasRect>) -> int
    recommends
        rects.len() > 0,
    decreases rects.len(),
{
    if rects.len() <= 1 {
        rects[0].spec_bottom()
    } else {
        let m = max_bottom(rects.drop_last());
        if rects.last().spec_bottom() > m {
            rects.last().spec_bottom()
        } else {
            m
        }
    }
}

/// Bounding rectangle of valid members, when it is itself a valid member.
pub open spec fn spec_union(rects: Seq<CanvasRect>) -> Option<CanvasRect> {
    if rects.len() == 0 || !all_valid(rects) {
        None
    } else {
        let w = max_right(rects) - min_left(rects);
        let h = max_bottom(rects) - min_top(rects);
        if w <= MAX_CANVAS_EXTENT && h <= MAX_CANVAS_EXTENT {
            Some(
                CanvasRect {
                    x: min_left(rects) as i32,
                    y: min_top(rects) as i32,
                    width: w as u32,
                    height: h as u32,
                },
            )
        } else {
            None
        }
    }
}

proof fn lemma_bounds(rects: Seq<CanvasRect>)
    requires
        rects.len() > 0,
        all_valid(rects),
    ensures
        i32::MIN <= min_left(rects) <= i32::MAX,
        i32::MIN <= min_top(rects) <= i32::MAX,
        forall|i: int|
            0 <= i < rects.len() ==> min_left(rects) <= (#[trigger] rects[i]).x && rects[i].y
                >= min_top(rects) && rects[i].spec_right() <= max_right(rects)
                && rects[i].spec_bottom() <= max_bottom(rects),
        max_right(rects) - min_left(rects) >= rects[0].width,
        max_bottom(rects) - min_top(rects) >= rects[0].height,
        max_right(rects) <= i32::MAX + MAX_CANVAS_EXTENT,
        max_bottom(rects) <= i32::MAX + MAX_CANVAS_EXTENT,
    decreases rects.len(),
{
    if rects.len() > 1 {
        let d = rects.drop_last();
        assert forall|i: int| 0 <= i < d.len() implies (#[trigger] d[i]).spec_valid() by {
            assert(d[i] == rects[i]);
        }
        lemma_bounds(d);
        assert forall|i: int| 0 <= i < rects.len() implies min_left(rects) <= (
        #[trigger] rects[i]).x && rects[i].y >= min_top(rects) && rects[i].spec_right()
            <= max_right(rects) && rects[i].spec_bottom() <= max_bottom(rects) by {
            if i < d.len() {
                assert(d[i] == rects[i]);
            }
        }
        assert(d[0] == rects[0]);
        assert(rects.last().spec_valid());
    } else {
        assert(rects[0].spec_valid());
    }
}

/// Bounding rectangle of the members; `None` when there are none, when one
/// is invalid, or when the bounding rectangle exceeds the supported extent.
pub fn union(rects: &[CanvasRect]) -> (r: Option<CanvasRect>)
    ensures
        r == spec_union(rects@),
{
    if rects.len() == 0 {
        return None;
    }
    let first = match rects[0].validate() {
        Ok(f) => f,
        Err(_) => {
            return None;
        },
    };
    let mut left: i64 = first.x as i64;
    let mut top: i64 = first.y as i64;
    let mut right: i64 = first.x as i64 + first.width as i64;
    let mut bottom: i64 = first.y as i64 + first.height as i64;
    let mut i: usize = 1;
    assert(rects@.take(1) =~= seq![rects@[0]]);
    while i < rects.len()
        invariant
            1 <= i <= rects@.len(),
            all_valid(rects@.take(i as int)),
            left == min_left(rects@.take(i as int)),
            top == min_top(rects@.take(i as int)),
            right == max_right(rects@.take(i as int)),
            bottom == max_bottom(rects@.take(i as int)),
        decreases rects@.len() - i,
    {
        proof {
            lemma_bounds(rects@.take(i as int));
        }
        let rect = match rects[i].validate() {
            Ok(r) => r,
            Err(_) => {
                proof {
                    assert(rects@[i as int] == rects@.take(i + 1)[i as int]);
                    assert(!all_valid(rects@));
                }
                return None;
            },
        };
        assert(rects@.take(i + 1).drop_last() =~= rects@.take(i as int));
        if (rect.x as i64) < left {
            left = rect.x as i64;
        }
        if (rect.y as i64) < top {
            top = rect.y as i64;
        }
        let rr = rect.x as i64 + rect.width as i64;
        if rr > right {
            right = rr;
        }
        let rb = rect.y as i64 + rect.height as i64;
        if rb > bottom {
            bottom = rb;
        }
        i = i + 1;
        assert forall|j: int| 0 <= j < i implies (#[trigger] rects@.take(i as int)[j]).spec_valid() by {
            if j < i - 1 {
                assert(rects@.take(i as int)[j] == rects@.take(i - 1)[j]);
            }
        }
    }
    assert(rects@.take(rects@.len() as int) =~= rects@);
    proof {
        lemma_bounds(rects@);
    }
    let width = right - left;
    let height = bottom - top;
    if width > MAX_CANVAS_EXTENT as i64 || height > MAX_CANVAS_EXTENT as i64 {
        return None;
    }
    Some(CanvasRect { x: left as i32, y: top as i32, width: width as u32, height: height as u32 })
}

/// The first violation among the members, in order.
pub open spec fn first_violation(rects: Seq<CanvasRect>, from: int) -> Option<&'static str>
    decreases rects.len() - from,
{
    if from < 0 || from >= rects.len() {
        None
    } else {
        match rects[from].violation() {
            Some(e) => Some(e),
            None => first_violation(rects, from + 1),
        }
    }
}

proof fn lemma_first_violation_none(rects: Seq<CanvasRect>, from: int)
    requires
        0 <= from <= rects.len(),
        first_violation(rects, from) is None,
    ensures
        forall|i: int| from <= i < rects.len() ==> (#[trigger] rects[i]).spec_valid(),
    decreases rects.len() - from,
{
    if from < rects.len() {
        lemma_first_violation_none(rects, from + 1);
    }
}

/// A member moved by the opposite of an origin.
pub open spec fn shifted(m: CanvasRect, origin: CanvasRect) -> CanvasRect {
    CanvasRect { x: (m.x - origin.x) as i32, y: (m.y - origin.y) as i32, width: m.width, height: m.height }
}

/// What canonicalising `before` gives: the members after the call and the result.
pub open spec fn canonicalize_outcome(
    before: Seq<CanvasRect>,
    after: Seq<CanvasRect>,
    r: Result<Option<CanvasRect>, &'static str>,
) -> bool {
    if before.len() == 0 {
        r == Ok::<Option<CanvasRect>, &'static str>(None) && after == before
    } else {
        match first_violation(before, 0) {
            Some(e) => r == Err::<Option<CanvasRect>, &'static str>(e) && after == before,
            None => match spec_union(before) {
                None => r == Err::<Option<CanvasRect>, &'static str>(ERR_EXTENT) && after == before,
                Some(u) => {
                    &&& r == Ok::<Option<CanvasRect>, &'static str>(
                        Some(CanvasRect { x: 0, y: 0, width: u.width, height: u.height }),
                    )
                    &&& after.len() == before.len()
                    &&& forall|i: int| 0 <= i < before.len() ==> #[trigger] after[i] == shifted(before[i], u)
                },
            },
        }
    }
}

/// Moves the members so that their bounding rectangle starts at the origin,
/// keeping their relative layout, and returns that rectangle.
pub fn canonicalize(rects: &mut Vec<CanvasRect>) -> (r: Result<Option<CanvasRect>, &'static str>)
    ensures
        canonicalize_outcome(old(rects)@, final(rects)@, r),
{
    if rects.len() == 0 {
        return Ok(None);
    }
    let mut k: usize = 0;
    while k < rects.len()
        invariant
            0 <= k <= rects@.len(),
            first_violation(rects@, 0) == first_violation(rects@, k as int),
        decreases rects@.len() - k,
    {
        match rects[k].validate() {
            Ok(_) => {},
            Err(e) => {
                return Err(e);
            },
        }
        k = k + 1;
    }
    proof {
        lemma_first_violation_none(rects@, 0);
    }
    let extent = match union(rects.as_slice()) {
        Some(u) => u,
        None => {
            return Err(ERR_EXTENT);
        },
    };
    proof {
        lemma_bounds(rects@);
    }
    let ghost r0 = rects@;
    let mut j: usize = 0;
    while j < rects.len()
        invariant
            0 <= j <= rects@.len(),
            rects@.len() == r0.len(),
            r0.len() > 0,
            all_valid(r0),
            spec_union(r0) == Some(extent),
            extent.x == min_left(r0),
            extent.y == min_top(r0),
            forall|t: int|
                0 <= t < r0.len() ==> min_left(r0) <= (#[trigger] r0[t]).x && r0[t].y >= min_top(
                    r0,
                ),
            forall|t: int| j <= t < r0.len() ==> #[trigger] rects@[t] == r0[t],
            forall|t: int|
                0 <= t < j ==> #[trigger] rects@[t] == shifted(r0[t], extent),
        decreases rects@.len() - j,
    {
        let m = rects[j];
        assert(m == r0[j as int]);
        proof {
            lemma_member_offsets(r0, j as int);
        }
        let moved = CanvasRect {
            x: (m.x as i64 - extent.x as i64) as i32,
            y: (m.y as i64 - extent.y as i64) as i32,
            width: m.width,
            height: m.height,
        };
        rects.set(j, moved);
        j = j + 1;
    }
    Ok(Some(CanvasRect { x: 0, y: 0, width: extent.width, height: extent.height }))
}

/// Offsets of a member from the union's origin fit the member's own type.
proof fn lemma_member_offsets(rects: Seq<CanvasRect>, i: int)
    requires
        rects.len() > 0,
        all_valid(rects),
        0 <= i < rects.len(),
        spec_union(rects) is Some,
    ensures
        0 <= rects[i].x - min_left(rects) <= MAX_CANVAS_EXTENT,
        0 <= rects[i].y - min_top(rects) <= MAX_CANVAS_EXTENT,
{
    lemma_bounds(rects);
    assert(rects[i].spec_valid());
}

/// Union is the smallest rectangle holding every member: each valid
/// member lies inside it.
pub proof fn law_union_contains_members(rects: Seq<CanvasRect>, i: int)
    requires
        spec_union(rects) is Some,
        0 <= i < rects.len(),
    ensures
        ({
            let u = spec_union(rects)->0;
            &&& u.x <= rects[i].x
            &&& u.y <= rects[i].y
            &&& rects[i].spec_right() <= u.spec_right()
            &&& rects[i].spec_bottom() <= u.spec_bottom()
        }),
{
    lemma_bounds(rects);
}

/// Each bound is reached by some member.
proof fn lemma_bounds_attained(rects: Seq<CanvasRect>)
    requires
        rects.len() > 0,
    ensures
        exists|i: int| 0 <= i < rects.len() && (#[trigger] rects[i]).x == min_left(rects),
        exists|i: int| 0 <= i < rects.len() && (#[trigger] rects[i]).y == min_top(rects),
        exists|i: int| 0 <= i < rects.len() && (#[trigger] rects[i]).spec_right() == max_right(rects),
        exists|i: int| 0 <= i < rects.len() && (#[trigger] rects[i]).spec_bottom() == max_bottom(rects),
    decreases rects.len(),
{
    if rects.len() == 1 {
        assert(rects[0].x == min_left(rects));
        assert(rects[0].y == min_top(rects));
        assert(rects[0].spec_right() == max_right(rects));
        assert(rects[0].spec_bottom() == max_bottom(rects));
    } else {
        let d = rects.drop_last();
        let n = rects.len() - 1;
        lemma_bounds_attained(d);
        assert forall|i: int| 0 <= i < d.len() implies #[trigger] d[i] == rects[i] by {}
        assert(rects[n] == rects.last());
        if rects.last().x < min_left(d) {
            assert(rects[n].x == min_left(rects));
        } else {
            let i = choose|i: int| 0 <= i < d.len() && (#[trigger] d[i]).x == min_left(d);
            assert(rects[i].x == min_left(rects));
        }
        if rects.last().y < min_top(d) {
            assert(rects[n].y == min_top(rects));
        } else {
            let i = choose|i: int| 0 <= i < d.len() && (#[trigger] d[i]).y == min_top(d);
            assert(rects[i].y == min_top(rects));
        }
        if rects.last().spec_right() > max_right(d) {
            assert(rects[n].spec_right() == max_right(rects));
        } else {
            let i = choose|i: int| 0 <= i < d.len() && (#[trigger] d[i]).spec_right() == max_right(d);
            assert(rects[i].spec_right() == max_right(rects));
        }
        if rects.last().spec_bottom() > max_bottom(d) {
            assert(rects[n].spec_bottom() == max_bottom(rects));
        } else {
            let i = choose|i: int| 0 <= i < d.len() && (#[trigger] d[i]).spec_bottom() == max_bottom(d);
            assert(rects[i].spec_bottom() == max_bottom(rects));
        }
    }
}

/// Union is the least such rectangle: any bounds that hold every member
/// hold the union too.
pub proof fn law_union_is_least(rects: Seq<CanvasRect>, left: int, top: int, right: int, bottom: int)
    requires
        spec_union(rects) is Some,
        forall|i: int|
            0 <= i < rects.len() ==> left <= (#[trigger] rects[i]).x && top <= rects[i].y && rects[i].spec_right()
                <= right && rects[i].spec_bottom() <= bottom,
    ensures
        ({
            let u = spec_union(rects)->0;
            &&& left <= u.x
            &&& top <= u.y
            &&& u.spec_right() <= right
            &&& u.spec_bottom() <= bottom
        }),
{
    lemma_bounds(rects);
    lemma_bounds_attained(rects);
    let a = choose|i: int| 0 <= i < rects.len() && (#[trigger] rects[i]).x == min_left(rects);
    let b = choose|i: int| 0 <= i < rects.len() && (#[trigger] rects[i]).y == min_top(rects);
    let c = choose|i: int| 0 <= i < rects.len() && (#[trigger] rects[i]).spec_right() == max_right(rects);
    let e = choose|i: int| 0 <= i < rects.len() && (#[trigger] rects[i]).spec_bottom() == max_bottom(rects);
    assert(left <= rects[a].x && top <= rects[b].y && rects[c].spec_right() <= right && rects[e].spec_bottom() <= bottom);
}

/// The union depends on which members there are, not on their order or
/// repetition: two lists holding the same members have the same union.
pub proof fn law_union_order_independent(a: Seq<CanvasRect>, b: Seq<CanvasRect>)
    requires
        forall|i: int| 0 <= i < a.len() ==> b.contains(#[trigger] a[i]),
        forall|j: int| 0 <= j < b.len() ==> a.contains(#[trigger] b[j]),
    ensures
        spec_union(a) == spec_union(b),
{
    if a.len() > 0 {
        assert(b.contains(a[0]));
    }
    if b.len() > 0 {
        assert(a.contains(b[0]));
    }
    if all_valid(a) && !all_valid(b) {
        let j = choose|j: int| 0 <= j < b.len() && !(#[trigger] b[j]).spec_valid();
        assert(a.contains(b[j]));
    }
    if all_valid(b) && !all_valid(a) {
        let i = choose|i: int| 0 <= i < a.len() && !(#[trigger] a[i]).spec_valid();
        assert(b.contains(a[i]));
    }
    if a.len() > 0 && b.len() > 0 && all_valid(a) && all_valid(b) {
        lemma_bounds(a);
        lemma_bounds(b);
        lemma_bounds_attained(a);
        lemma_bounds_attained(b);
        let i1 = choose|i: int| 0 <= i < a.len() && (#[trigger] a[i]).x == min_left(a);
        let i2 = choose|i: int| 0 <= i < a.len() && (#[trigger] a[i]).y == min_top(a);
        let i3 = choose|i: int| 0 <= i < a.len() && (#[trigger] a[i]).spec_right() == max_right(a);
        let i4 = choose|i: int| 0 <= i < a.len() && (#[trigger] a[i]).spec_bottom() == max_bottom(a);
        let j1 = choose|j: int| 0 <= j < b.len() && (#[trigger] b[j]).x == min_left(b);
        let j2 = choose|j: int| 0 <= j < b.len() && (#[trigger] b[j]).y == min_top(b);
        let j3 = choose|j: int| 0 <= j < b.len() && (#[trigger] b[j]).spec_right() == max_right(b);
        let j4 = choose|j: int| 0 <= j < b.len() && (#[trigger] b[j]).spec_bottom() == max_bottom(b);
        assert(b.contains(a[i1]) && b.contains(a[i2]) && b.contains(a[i3]) && b.contains(a[i4]));
        assert(a.contains(b[j1]) && a.contains(b[j2]) && a.contains(b[j3]) && a.contains(b[j4]));
        let k1 = choose|k: int| 0 <= k < b.len() && b[k] == a[i1];
        let k2 = choose|k: int| 0 <= k < b.len() && b[k] == a[i2];
        let k3 = choose|k: int| 0 <= k < b.len() && b[k] == a[i3];
        let k4 = choose|k: int| 0 <= k < b.len() && b[k] == a[i4];
        let m1 = choose|k: int| 0 <= k < a.len() && a[k] == b[j1];
        let m2 = choose|k: int| 0 <= k < a.len() && a[k] == b[j2];
        let m3 = choose|k: int| 0 <= k < a.len() && a[k] == b[j3];
        let m4 = choose|k: int| 0 <= k < a.len() && a[k] == b[j4];
        assert(min_left(b) <= b[k1].x && min_left(a) <= a[m1].x);
        assert(min_top(b) <= b[k2].y && min_top(a) <= a[m2].y);
        assert(b[k3].spec_right() <= max_right(b) && a[m3].spec_right() <= max_right(a));
        assert(b[k4].spec_bottom() <= max_bottom(b) && a[m4].spec_bottom() <= max_bottom(a));
    }
}

// ---------------------------------------------------------------------------
// Layout vocabulary

#[derive(Copy, Clone, Debug, PartialEq, Eq, Structural)]
pub enum FillMode {
    Stretched,
    PreserveAspectFit,
    PreserveAspectCrop,
    Centered,
}

/// Buffer-side rotation, a clockwise turn of the displayed image.
#[derive(Copy, Clone, Debug, PartialEq, Eq, Structural)]
pub enum Rotation {
    Normal,
    Cw90,
    Cw180,
    Cw270,
}

impl Rotation {
    /// `wl_output.transform` value matching this rotation.
    pub fn to_wl_transform(self) -> (r: u32)
        ensures
            r == match self {
                Rotation::Normal => 0u32,
                Rotation::Cw90 => 1u32,
                Rotation::Cw180 => 2u32,
                Rotation::Cw270 => 3u32,
            },
    {
        match self {
            Rotation::Normal => 0,
            Rotation::Cw90 => 1,
            Rotation::Cw180 => 2,
            Rotation::Cw270 => 3,
        }
    }
}

#[derive(Copy, Clone, Debug, PartialEq, Eq, Structural)]
pub enum Align {
    TopLeft,
    Top,
    TopRight,
    Left,
    Center,
    Right,
    BottomLeft,
    Bottom,
    BottomRight,
}

impl Align {
    /// Horizontal anchor in percent: left 0, centre 50, right 100.
    pub open spec fn h_percent(self) -> u8 {
        match self {
            Align::TopLeft | Align::Left | Align::BottomLeft => 0,
            Align::Top | Align::Center | Align::Bottom => 50,
            Align::TopRight | Align::Right | Align::BottomRight => 100,
        }
    }

    /// Vertical anchor in percent: top 0, centre 50, bottom 100.
    pub open spec fn v_percent(self) -> u8 {
        match self {
            Align::TopLeft | Align::Top | Align::TopRight => 0,
            Align::Left | Align::Center | Align::Right => 50,
            Align::BottomLeft | Align::Bottom | Align::BottomRight => 100,
        }
    }
}

/// Content anchor in percent of the free space on each axis.
#[derive(Copy, Clone, Debug, PartialEq, Eq, Structural)]
pub struct Location {
    pub x: u8,
    pub y: u8,
}

/// Which third of the percent range a coordinate falls in.
pub open spec fn bucket(v: u8) -> u8 {
    if v <= 25 {
        0
    } else if v >= 75 {
        2
    } else {
        1
    }
}

impl Location {
    /// The centred location.
    pub fn centered() -> (r: Self)
        ensures
            r == (Location { x: 50, y: 50 }),
    {
        Location { x: 50, y: 50 }
    }

    /// A location with both coordinates clamped to 100.
    pub fn new(x: u8, y: u8) -> (r: Self)
        ensures
            r.x == (if x > 100 {
                100
            } else {
                x
            }),
            r.y == (if y > 100 {
                100
            } else {
                y
            }),
    {
        Location { x: if x > 100 {
            100
        } else {
            x
        }, y: if y > 100 {
            100
        } else {
            y
        } }
    }

    /// The location of a coarse alignment.
    pub fn from_align(align: Align) -> (r: Self)
        ensures
            r == (Location { x: align.h_percent(), y: align.v_percent() }),
    {
        let x: u8 = match align {
            Align::TopLeft | Align::Left | Align::BottomLeft => 0,
            Align::Top | Align::Center | Align::Bottom => 50,
            Align::TopRight | Align::Right | Align::BottomRight => 100,
        };
        let y: u8 = match align {
            Align::TopLeft | Align::Top | Align::TopRight => 0,
            Align::Left | Align::Center | Align::Right => 50,
            Align::BottomLeft | Align::Bottom | Align::BottomRight => 100,
        };
        Location::new(x, y)
    }

    /// The coarse alignment nearest to this location.
    pub fn to_align(self) -> (r: Align)
        ensures
            r.h_percent() == (match bucket(self.x) {
                0 => 0u8,
                1 => 50u8,
                _ => 100u8,
            }),
            r.v_percent() == (match bucket(self.y) {
                0 => 0u8,
                1 => 50u8,
                _ => 100u8,
            }),
    {
        let bx: u8 = if self.x <= 25 {
            0
        } else if self.x >= 75 {
            2
        } else {
            1
        };
        let by: u8 = if self.y <= 25 {
            0
        } else if self.y >= 75 {
            2
        } else {
            1
        };
        if by == 0 {
            if bx == 0 {
                Align::TopLeft
            } else if bx == 1 {
                Align::Top
            } else {
                Align::TopRight
            }
        } else if by == 1 {
            if bx == 0 {
                Align::Left
            } else if bx == 1 {
                Align::Center
            } else {
                Align::Right
            }
        } else {
            if bx == 0 {
                Align::BottomLeft
            } else if bx == 1 {
                Align::Bottom
            } else {
                Align::BottomRight
            }
        }
    }
}

/// Every coarse alignment survives the trip through a location.
pub proof fn law_align_round_trip(align: Align)
    ensures
        bucket(align.h_percent()) == (match align.h_percent() {
            0 => 0u8,
            50 => 1u8,
            _ => 2u8,
        }),
        bucket(align.v_percent()) == (match align.v_percent() {
            0 => 0u8,
            50 => 1u8,
            _ => 2u8,
        }),
{
}

} // verus!
