use waywallen::geometry::{
    canonicalize, union, Align, CanvasRect, Location, Rotation, MAX_CANVAS_EXTENT,
};

#[test]
fn union_preserves_negative_origin_and_gaps() {
    let canvas = union(&[
        CanvasRect {
            x: -1920,
            y: 0,
            width: 1920,
            height: 1080,
        },
        CanvasRect {
            x: 200,
            y: 120,
            width: 2560,
            height: 1440,
        },
    ])
    .unwrap();
    assert_eq!(
        canvas,
        CanvasRect {
            x: -1920,
            y: 0,
            width: 4680,
            height: 1560
        }
    );
}

#[test]
fn canonicalize_moves_the_union_origin_without_changing_relative_layout() {
    let mut members = vec![
        CanvasRect {
            x: -1920,
            y: 240,
            width: 1920,
            height: 1080,
        },
        CanvasRect {
            x: 320,
            y: -120,
            width: 2560,
            height: 1440,
        },
    ];
    let extent = canonicalize(&mut members).unwrap().unwrap();
    assert_eq!(extent.x, 0);
    assert_eq!(extent.y, 0);
    assert_eq!(extent.width, 4800);
    assert_eq!(extent.height, 1440);
    assert_eq!(members[0].x, 0);
    assert_eq!(members[0].y, 360);
    assert_eq!(members[1].x, 2240);
    assert_eq!(members[1].y, 0);
}

#[test]
fn validate_reports_each_error() {
    let ok = CanvasRect { x: 0, y: 0, width: 1, height: 1 };
    assert_eq!(ok.validate(), Ok(ok));
    assert_eq!(
        CanvasRect { width: 0, ..ok }.validate(),
        Err("canvas member must have a non-zero size")
    );
    assert_eq!(
        CanvasRect { height: MAX_CANVAS_EXTENT + 1, ..ok }.validate(),
        Err("canvas member exceeds the supported extent")
    );
    assert_eq!(CanvasRect { x: i32::MAX, ..ok }.right(), Some(i32::MAX as i64 + 1));
}

#[test]
fn union_and_canonicalize_edge_cases() {
    assert_eq!(union(&[]), None);
    let a = CanvasRect { x: 0, y: 0, width: 10, height: 10 };
    let far = CanvasRect { x: MAX_CANVAS_EXTENT as i32, y: 0, width: 10, height: 10 };
    assert_eq!(union(&[a, far]), None);
    let mut none: Vec<CanvasRect> = Vec::new();
    assert_eq!(canonicalize(&mut none), Ok(None));
    let mut bad = vec![a, CanvasRect { width: 0, ..a }];
    assert_eq!(canonicalize(&mut bad), Err("canvas member must have a non-zero size"));
    assert_eq!(bad[0], a);
    let mut wide = vec![a, far];
    assert_eq!(canonicalize(&mut wide), Err("canvas extent is invalid"));
    // Each member lies inside the union.
    let u = union(&[a, CanvasRect { x: -5, y: 7, width: 3, height: 30 }]).unwrap();
    assert_eq!(u, CanvasRect { x: -5, y: 0, width: 15, height: 37 });
}

#[test]
fn alignment_round_trips_and_rotations() {
    for align in [
        Align::TopLeft,
        Align::Top,
        Align::TopRight,
        Align::Left,
        Align::Center,
        Align::Right,
        Align::BottomLeft,
        Align::Bottom,
        Align::BottomRight,
    ] {
        assert_eq!(Location::from_align(align).to_align(), align);
    }
    assert_eq!(Location::new(200, 30), Location { x: 100, y: 30 });
    assert_eq!(Location::centered(), Location { x: 50, y: 50 });
    assert_eq!(Location::new(80, 10).to_align(), Align::TopRight);
    assert_eq!(Rotation::Cw270.to_wl_transform(), 3);
    assert_eq!(Rotation::Normal.to_wl_transform(), 0);
}

#[test]
fn union_ignores_member_order_and_repetition() {
    let a = CanvasRect { x: -100, y: 20, width: 50, height: 30 };
    let b = CanvasRect { x: 10, y: -5, width: 200, height: 10 };
    let c = CanvasRect { x: 0, y: 0, width: 5, height: 500 };
    let expected = Some(CanvasRect { x: -100, y: -5, width: 310, height: 505 });
    assert_eq!(union(&[a, b, c]), expected);
    assert_eq!(union(&[c, a, b]), expected);
    assert_eq!(union(&[b, c, a, b]), expected);
}
