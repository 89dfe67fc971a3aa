use waywallen::negotiate::{
    pick, unflatten_caps, DeviceIdentity, DrmNode, MemSource, NegotiateError, PathCategory,
    PeerCaps, COLOR_ALPHA_PREMUL, COLOR_ENC_BT709, COLOR_RANGE_FULL, COLOR_RANGE_LIMITED,
    DEFAULT_COLOR, DRM_FORMAT_ABGR8888, DRM_FORMAT_MOD_INVALID, DRM_FORMAT_MOD_LINEAR,
    DRM_FORMAT_XRGB8888, MEM_HINT_DEVICE_LOCAL, MEM_HINT_HOST_VISIBLE, SYNC_IMPLICIT,
    SYNC_SYNCOBJ_BINARY, SYNC_SYNCOBJ_TIMELINE,
};

fn drm() -> DrmNode {
    DrmNode::unknown()
}

#[test]
fn unflatten_multi_fourcc_multi_modifier() {
    let caps = unflatten_caps(
        &[DRM_FORMAT_ABGR8888, DRM_FORMAT_XRGB8888],
        &[2, 1],
        &[DRM_FORMAT_MOD_LINEAR, DRM_FORMAT_MOD_INVALID, DRM_FORMAT_MOD_LINEAR],
        &[1, 1, 1],
        &[0; 4],
        &[0; 4],
        drm(),
        SYNC_SYNCOBJ_TIMELINE,
        DEFAULT_COLOR,
        0,
        (640, 360),
    )
    .unwrap();
    assert_eq!(caps.formats.by_fourcc.len(), 2);
    let abgr = caps.formats.by_fourcc.get(&DRM_FORMAT_ABGR8888).unwrap();
    assert_eq!(abgr.len(), 2);
    assert_eq!(abgr[1].modifier, DRM_FORMAT_MOD_INVALID);
    let xrgb = caps.formats.by_fourcc.get(&DRM_FORMAT_XRGB8888).unwrap();
    assert_eq!(xrgb.len(), 1);
    assert_eq!(xrgb[0].plane_count, 1);
}

#[test]
fn unflatten_rejects_length_mismatch() {
    let err = unflatten_caps(
        &[DRM_FORMAT_ABGR8888],
        &[2],
        &[DRM_FORMAT_MOD_LINEAR],
        &[1, 1],
        &[0; 4],
        &[0; 4],
        drm(),
        0,
        0,
        0,
        (0, 0),
    )
    .unwrap_err();
    assert!(matches!(err, NegotiateError::MalformedCaps(_)));
}

#[test]
fn unflatten_rejects_bad_uuid_length() {
    let err = unflatten_caps(&[], &[], &[], &[], &[0, 0, 0], &[0; 4], drm(), 0, 0, 0, (0, 0))
        .unwrap_err();
    assert!(matches!(err, NegotiateError::MalformedCaps(_)));
}

#[test]
fn unflatten_rejects_bad_mod_counts() {
    let err = unflatten_caps(
        &[DRM_FORMAT_ABGR8888, DRM_FORMAT_XRGB8888],
        &[1],
        &[DRM_FORMAT_MOD_LINEAR],
        &[1],
        &[0; 4],
        &[0; 4],
        drm(),
        0,
        0,
        0,
        (0, 0),
    )
    .unwrap_err();
    assert!(matches!(err, NegotiateError::MalformedCaps(_)));
}

#[test]
fn device_identity_same_device_by_uuid() {
    let mut a = DeviceIdentity::zero();
    let mut b = DeviceIdentity::zero();
    a.device_uuid[0] = 0x42;
    b.device_uuid[0] = 0x42;
    assert!(a.same_device(&b));
}

#[test]
fn device_identity_zero_uuid_falls_back_to_drm() {
    let a = DeviceIdentity { device_uuid: [0; 16], driver_uuid: [0; 16], drm: DrmNode { major: 226, minor: 128 } };
    let b = DeviceIdentity { device_uuid: [0; 16], driver_uuid: [0; 16], drm: DrmNode { major: 226, minor: 128 } };
    assert!(a.same_device(&b));
    let c = DeviceIdentity { device_uuid: [0; 16], driver_uuid: [0; 16], drm: DrmNode { major: 226, minor: 129 } };
    assert!(!a.same_device(&c));
}

#[test]
fn device_identity_uuid_takes_precedence_over_mismatched_drm() {
    let mut a = DeviceIdentity { device_uuid: [0x42; 16], driver_uuid: [0; 16], drm: DrmNode { major: 226, minor: 128 } };
    let b = DeviceIdentity { device_uuid: [0x42; 16], driver_uuid: [0; 16], drm: DrmNode { major: 226, minor: 129 } };
    assert!(a.same_device(&b));
    a.device_uuid = [0x42; 16];
    let c = DeviceIdentity { device_uuid: [0x99; 16], driver_uuid: [0; 16], drm: DrmNode { major: 226, minor: 128 } };
    assert!(!a.same_device(&c));
}

fn caps_one_fourcc(
    fourcc: u32,
    mods: &[(u64, u32)],
    identity: DeviceIdentity,
    sync: u32,
    color: u32,
    mem: u32,
) -> PeerCaps {
    let mod_count = mods.len() as u32;
    let modifiers: Vec<u64> = mods.iter().map(|(m, _)| *m).collect();
    let plane_counts: Vec<u32> = mods.iter().map(|(_, p)| *p).collect();
    let dev_words: Vec<u32> = identity
        .device_uuid
        .chunks_exact(4)
        .map(|c| u32::from_le_bytes([c[0], c[1], c[2], c[3]]))
        .collect();
    let drv_words: Vec<u32> = identity
        .driver_uuid
        .chunks_exact(4)
        .map(|c| u32::from_le_bytes([c[0], c[1], c[2], c[3]]))
        .collect();
    unflatten_caps(
        &[fourcc],
        &[mod_count],
        &modifiers,
        &plane_counts,
        &dev_words,
        &drv_words,
        identity.drm,
        sync,
        color,
        mem,
        (1920, 1080),
    )
    .unwrap()
}

fn ident_uuid(byte: u8) -> DeviceIdentity {
    DeviceIdentity { device_uuid: [byte; 16], driver_uuid: [byte; 16], drm: DrmNode { major: 226, minor: 128 } }
}

#[test]
fn pick_same_device_prefers_non_linear() {
    let nl: u64 = 0x0100_0000_0000_0001;
    let p = caps_one_fourcc(DRM_FORMAT_ABGR8888, &[(DRM_FORMAT_MOD_LINEAR, 1), (nl, 1)], ident_uuid(0x42), SYNC_SYNCOBJ_TIMELINE, DEFAULT_COLOR, MEM_HINT_DEVICE_LOCAL | MEM_HINT_HOST_VISIBLE);
    let c = caps_one_fourcc(DRM_FORMAT_ABGR8888, &[(DRM_FORMAT_MOD_LINEAR, 1), (nl, 1)], ident_uuid(0x42), SYNC_SYNCOBJ_TIMELINE, DEFAULT_COLOR, MEM_HINT_DEVICE_LOCAL | MEM_HINT_HOST_VISIBLE);
    let s = pick(&p, &c).unwrap();
    assert_eq!(s.fourcc, DRM_FORMAT_ABGR8888);
    assert_eq!(s.modifier, nl);
    assert_eq!(s.plane_count, 1);
    assert_eq!(s.mem_hint, MEM_HINT_DEVICE_LOCAL);
}

#[test]
fn pick_cross_device_uses_compat_linear() {
    let nl: u64 = 0x0100_0000_0000_0001;
    let p = caps_one_fourcc(DRM_FORMAT_ABGR8888, &[(DRM_FORMAT_MOD_LINEAR, 1), (nl, 1)], ident_uuid(0xAA), SYNC_SYNCOBJ_TIMELINE, DEFAULT_COLOR, MEM_HINT_DEVICE_LOCAL);
    let c = caps_one_fourcc(DRM_FORMAT_ABGR8888, &[(DRM_FORMAT_MOD_LINEAR, 1), (nl, 1)], ident_uuid(0xBB), SYNC_SYNCOBJ_TIMELINE, DEFAULT_COLOR, MEM_HINT_HOST_VISIBLE);
    let s = pick(&p, &c).unwrap();
    assert_eq!(s.fourcc, DRM_FORMAT_ABGR8888);
    assert_eq!(s.modifier, DRM_FORMAT_MOD_LINEAR);
    assert_eq!(s.path, PathCategory::CompatLinear);
    assert_eq!(s.mem_source, MemSource::GpuLinear);
    assert_eq!(s.mem_hint, 0);
}

#[test]
fn pick_no_fourcc_intersection() {
    let p = caps_one_fourcc(DRM_FORMAT_ABGR8888, &[(DRM_FORMAT_MOD_LINEAR, 1)], ident_uuid(0x42), SYNC_SYNCOBJ_TIMELINE, DEFAULT_COLOR, MEM_HINT_HOST_VISIBLE);
    let c = caps_one_fourcc(DRM_FORMAT_XRGB8888, &[(DRM_FORMAT_MOD_LINEAR, 1)], ident_uuid(0x42), SYNC_SYNCOBJ_TIMELINE, DEFAULT_COLOR, MEM_HINT_HOST_VISIBLE);
    assert_eq!(pick(&p, &c).unwrap_err(), NegotiateError::NoFormatIntersection);
}

#[test]
fn pick_blacklist_excludes_modifier() {
    let nl: u64 = 0x0100_0000_0000_0001;
    let mut p = caps_one_fourcc(DRM_FORMAT_ABGR8888, &[(DRM_FORMAT_MOD_LINEAR, 1), (nl, 1)], ident_uuid(0x42), SYNC_SYNCOBJ_TIMELINE, DEFAULT_COLOR, MEM_HINT_HOST_VISIBLE);
    let c = caps_one_fourcc(DRM_FORMAT_ABGR8888, &[(DRM_FORMAT_MOD_LINEAR, 1), (nl, 1)], ident_uuid(0x42), SYNC_SYNCOBJ_TIMELINE, DEFAULT_COLOR, MEM_HINT_HOST_VISIBLE);
    p.blacklist.push((DRM_FORMAT_ABGR8888, nl));
    let s = pick(&p, &c).unwrap();
    assert_eq!(s.modifier, DRM_FORMAT_MOD_LINEAR);
}

#[test]
fn pick_cross_device_only_tile_modifiers_in_producer() {
    let nv_tile: u64 = 0x0300_0000_0060_6010;
    let amd_tile: u64 = 0x0200_0000_0008_2305;
    let p = caps_one_fourcc(DRM_FORMAT_ABGR8888, &[(nv_tile, 1)], ident_uuid(0xAA), SYNC_SYNCOBJ_TIMELINE, DEFAULT_COLOR, MEM_HINT_HOST_VISIBLE);
    let c = caps_one_fourcc(DRM_FORMAT_ABGR8888, &[(amd_tile, 1), (DRM_FORMAT_MOD_LINEAR, 1)], ident_uuid(0xBB), SYNC_SYNCOBJ_TIMELINE, DEFAULT_COLOR, MEM_HINT_HOST_VISIBLE);
    let s = pick(&p, &c).unwrap();
    assert_eq!(s.fourcc, DRM_FORMAT_ABGR8888);
    assert_eq!(s.modifier, DRM_FORMAT_MOD_LINEAR);
    assert_eq!(s.path, PathCategory::CompatLinear);
    assert_eq!(s.mem_source, MemSource::GpuLinear);
}

#[test]
fn pick_no_topology_falls_back_to_compat() {
    let p = caps_one_fourcc(DRM_FORMAT_ABGR8888, &[(DRM_FORMAT_MOD_LINEAR, 1)], DeviceIdentity { device_uuid: [0; 16], driver_uuid: [0; 16], drm: DrmNode { major: 226, minor: 128 } }, SYNC_SYNCOBJ_TIMELINE, DEFAULT_COLOR, MEM_HINT_HOST_VISIBLE);
    let c = caps_one_fourcc(DRM_FORMAT_ABGR8888, &[(DRM_FORMAT_MOD_LINEAR, 1)], DeviceIdentity { device_uuid: [0; 16], driver_uuid: [0; 16], drm: DrmNode { major: 226, minor: 130 } }, SYNC_SYNCOBJ_TIMELINE, DEFAULT_COLOR, MEM_HINT_HOST_VISIBLE);
    let s = pick(&p, &c).unwrap();
    assert_eq!(s.path, PathCategory::CompatLinear);
    assert_eq!(s.mem_source, MemSource::GpuLinear);
    assert_eq!(s.mem_hint, 0);
}

#[test]
fn pick_sync_priority_timeline_over_binary() {
    let p = caps_one_fourcc(DRM_FORMAT_ABGR8888, &[(DRM_FORMAT_MOD_LINEAR, 1)], ident_uuid(0x42), SYNC_SYNCOBJ_TIMELINE | SYNC_SYNCOBJ_BINARY | SYNC_IMPLICIT, DEFAULT_COLOR, MEM_HINT_HOST_VISIBLE);
    let c = caps_one_fourcc(DRM_FORMAT_ABGR8888, &[(DRM_FORMAT_MOD_LINEAR, 1)], ident_uuid(0x42), SYNC_SYNCOBJ_TIMELINE | SYNC_SYNCOBJ_BINARY, DEFAULT_COLOR, MEM_HINT_HOST_VISIBLE);
    let s = pick(&p, &c).unwrap();
    assert_eq!(s.sync_mode, SYNC_SYNCOBJ_TIMELINE);
    let c2 = caps_one_fourcc(DRM_FORMAT_ABGR8888, &[(DRM_FORMAT_MOD_LINEAR, 1)], ident_uuid(0x42), SYNC_SYNCOBJ_BINARY | SYNC_IMPLICIT, DEFAULT_COLOR, MEM_HINT_HOST_VISIBLE);
    let s2 = pick(&p, &c2).unwrap();
    assert_eq!(s2.sync_mode, SYNC_SYNCOBJ_BINARY);
}

#[test]
fn pick_no_sync_intersection() {
    let p = caps_one_fourcc(DRM_FORMAT_ABGR8888, &[(DRM_FORMAT_MOD_LINEAR, 1)], ident_uuid(0x42), SYNC_SYNCOBJ_TIMELINE, DEFAULT_COLOR, MEM_HINT_HOST_VISIBLE);
    let c = caps_one_fourcc(DRM_FORMAT_ABGR8888, &[(DRM_FORMAT_MOD_LINEAR, 1)], ident_uuid(0x42), SYNC_IMPLICIT, DEFAULT_COLOR, MEM_HINT_HOST_VISIBLE);
    assert_eq!(pick(&p, &c).unwrap_err(), NegotiateError::NoSyncIntersection);
}

#[test]
fn pick_color_per_axis_intersect() {
    let p_color = COLOR_ENC_BT709 | COLOR_RANGE_FULL | COLOR_ALPHA_PREMUL;
    let c_color = COLOR_ENC_BT709 | COLOR_RANGE_LIMITED | COLOR_ALPHA_PREMUL;
    let p = caps_one_fourcc(DRM_FORMAT_ABGR8888, &[(DRM_FORMAT_MOD_LINEAR, 1)], ident_uuid(0x42), SYNC_SYNCOBJ_TIMELINE, p_color, MEM_HINT_HOST_VISIBLE);
    let c = caps_one_fourcc(DRM_FORMAT_ABGR8888, &[(DRM_FORMAT_MOD_LINEAR, 1)], ident_uuid(0x42), SYNC_SYNCOBJ_TIMELINE, c_color, MEM_HINT_HOST_VISIBLE);
    let s = pick(&p, &c).unwrap();
    assert!(s.color & COLOR_ENC_BT709 != 0, "BT709 must be picked");
    assert!(s.color & COLOR_RANGE_LIMITED != 0, "range axis empty → DEFAULT_COLOR's LIMITED applied");
    assert!(s.color & COLOR_ALPHA_PREMUL != 0);
}

#[test]
fn unflatten_merges_a_fourcc_listed_twice() {
    let caps = unflatten_caps(
        &[DRM_FORMAT_ABGR8888, DRM_FORMAT_ABGR8888],
        &[2, 2],
        &[DRM_FORMAT_MOD_LINEAR, DRM_FORMAT_MOD_INVALID, 7, DRM_FORMAT_MOD_LINEAR],
        &[1, 1, 3, 2],
        &[0; 4],
        &[0; 4],
        drm(),
        0,
        0,
        0,
        (0, 0),
    )
    .unwrap();
    let abgr = caps.formats.by_fourcc.get(&DRM_FORMAT_ABGR8888).unwrap();
    assert_eq!(abgr.len(), 3);
    assert_eq!((abgr[0].modifier, abgr[0].plane_count), (DRM_FORMAT_MOD_LINEAR, 2));
    assert_eq!((abgr[1].modifier, abgr[1].plane_count), (DRM_FORMAT_MOD_INVALID, 1));
    assert_eq!((abgr[2].modifier, abgr[2].plane_count), (7, 3));

    let caps = unflatten_caps(
        &[DRM_FORMAT_ABGR8888, DRM_FORMAT_ABGR8888],
        &[1, 1],
        &[0, 0],
        &[1, 2],
        &[0; 4],
        &[0; 4],
        drm(),
        0,
        0,
        0,
        (0, 0),
    )
    .unwrap();
    let abgr = caps.formats.by_fourcc.get(&DRM_FORMAT_ABGR8888).unwrap();
    assert_eq!(abgr.len(), 1);
    assert_eq!((abgr[0].modifier, abgr[0].plane_count), (0, 2));
}
