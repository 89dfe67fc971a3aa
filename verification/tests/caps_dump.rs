use std::collections::BTreeMap;
use waywallen::caps_dump::{fourcc_str, hex_uuid};
use waywallen::negotiate::{DeviceIdentity, DrmNode, FormatCaps, ModCap, PeerCaps};

fn caps() -> PeerCaps {
    let mut by_fourcc = BTreeMap::new();
    by_fourcc.insert(
        0x3432_5258,
        vec![
            ModCap { modifier: 0, plane_count: 1 },
            ModCap { modifier: 0x0100_0000_0000_0002, plane_count: 2 },
        ],
    );
    by_fourcc.insert(0x3432_4241, vec![ModCap { modifier: 0x00ff_ffff_ffff_ffff, plane_count: 1 }]);
    PeerCaps {
        formats: FormatCaps { by_fourcc },
        identity: DeviceIdentity {
            device_uuid: [0xab; 16],
            driver_uuid: [0; 16],
            drm: DrmNode { major: 226, minor: 128 },
        },
        sync: 0x6,
        color: 0x101,
        mem_hint: 0,
        extent_max: (16384, 8192),
        blacklist: Vec::new(),
    }
}

#[test]
fn fourcc_names_print_when_printable() {
    assert_eq!(fourcc_str(0x3432_5258), "'XR24'");
    assert_eq!(fourcc_str(0x0000_0001), "0x00000001");
    let mut uuid = [0u8; 16];
    uuid[0] = 0x0f;
    uuid[15] = 0xa0;
    assert_eq!(hex_uuid(&uuid), "0f0000000000000000000000000000a0");
}

#[test]
fn dump_lists_summary_then_each_fourcc_ascending() {
    let lines = caps().log_dump("renderer r: format_caps");
    assert_eq!(
        lines,
        vec![
            "renderer r: format_caps: device_uuid=abababababababababababababababab \
             driver_uuid=00000000000000000000000000000000 drm_render=226:128 sync=0x6 \
             color=0x101 mem_hint=0x0 extent_max=16384x8192"
                .to_string(),
            "renderer r: format_caps: fourcc='AB24' (0x34324241) — 1 modifier".to_string(),
            "renderer r: format_caps:   modifier=0x00ffffffffffffff planes=1".to_string(),
            "renderer r: format_caps: fourcc='XR24' (0x34325258) — 2 modifiers".to_string(),
            "renderer r: format_caps:   modifier=0x0000000000000000 planes=1".to_string(),
            "renderer r: format_caps:   modifier=0x0100000000000002 planes=2".to_string(),
        ]
    );
}
