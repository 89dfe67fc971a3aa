use waywallen::gpu::{dev_major, dev_minor, enumerate, format_description, format_drm_dev, parse_drm_dev, resolve_pci_names, GpuInfo};
use waywallen::system_info::{parse_os_name, SystemInfo};

#[test]
fn resolve_pci_names_matches_multiple_devices_in_one_scan() {
    let database = "\
# comment
1002  Advanced Micro Devices, Inc. [AMD/ATI]
\t13c0  Granite Ridge [Radeon Graphics]
\t7550  Navi 48 [Radeon RX 9070/9070 XT/9070 GRE]
\t\t1da2 e471  Radeon RX 9070 XT Board
C 03  Display controller
\t00  VGA compatible controller
10DE  NVIDIA Corporation
\t2188  TU116 [GeForce GTX 1650]
";
    let mut gpus = vec![
        GpuInfo {
            vendor_id: 0x1002,
            device_id: 0x7550,
            subsystem_vendor_id: 0x1da2,
            subsystem_device_id: 0xe471,
            ..Default::default()
        },
        GpuInfo { vendor_id: 0x10de, device_id: 0x2188, ..Default::default() },
        GpuInfo { vendor_id: 0x1002, device_id: 0xffff, ..Default::default() },
    ];

    resolve_pci_names(&mut gpus, database);

    assert_eq!(gpus[0].name, "Radeon RX 9070 XT Board");
    assert_eq!(gpus[1].name, "TU116 [GeForce GTX 1650]");
    assert!(gpus[2].name.is_empty());
}

#[test]
fn resolve_pci_names_preserves_existing_name_without_database() {
    let gpus = vec![
        GpuInfo { vendor_id: 0x1002, device_id: 0x7550, name: "Hardware product name".to_string(), ..Default::default() },
        GpuInfo { vendor_id: 0x10de, device_id: 0x2188, ..Default::default() },
    ];
    let gpus = enumerate(gpus, None);
    assert_eq!(gpus[0].name, "Hardware product name");
    assert!(gpus[1].name.is_empty());
}

#[test]
fn resolve_pci_names_keeps_existing_names_with_a_database() {
    let mut gpus = vec![GpuInfo {
        vendor_id: 0x1002,
        device_id: 0x7550,
        name: "Hardware product name".to_string(),
        ..Default::default()
    }];
    resolve_pci_names(&mut gpus, "1002  AMD\n\t7550  Database name\n");
    assert_eq!(gpus[0].name, "Hardware product name");
}

#[test]
fn resolve_pci_names_ignores_device_lines_outside_a_vendor() {
    let mut gpus = vec![GpuInfo { vendor_id: 0x1002, device_id: 0x7550, ..Default::default() }];
    resolve_pci_names(&mut gpus, "C 03  Display\n\t7550  Not a device\r\n");
    assert!(gpus[0].name.is_empty());
    resolve_pci_names(&mut gpus, "1002  AMD\r\n\t7550  Selected name\r\n");
    assert_eq!(gpus[0].name, "Selected name");
}

#[test]
fn dev_major_minor_round_trip() {
    let rdev: u64 = (226u64 << 8) | 128u64;
    assert_eq!(dev_major(rdev), 226);
    assert_eq!(dev_minor(rdev), 128);
}

#[test]
fn format_description_handles_unknown_pci() {
    let g = GpuInfo { driver: "vgem".to_string(), ..Default::default() };
    assert_eq!(format_description(&g), "vgem");
    let g = GpuInfo::default();
    assert_eq!(format_description(&g), "unknown");
}

#[test]
fn format_description_includes_resolved_name() {
    let g = GpuInfo {
        vendor_id: 0x1002,
        device_id: 0x7550,
        driver: "amdgpu".to_string(),
        name: "Navi 48".to_string(),
        ..Default::default()
    };
    assert_eq!(format_description(&g), "Navi 48 — amdgpu 0x1002:0x7550");
}

#[test]
fn matches_render_requires_render_node() {
    let mut g = GpuInfo { render_major: 226, render_minor: 128, ..Default::default() };
    assert!(!g.matches_render(226, 128));
    g.render_node = Some("/dev/dri/renderD128".to_string());
    assert!(g.matches_render(226, 128));
    assert!(!g.matches_render(226, 129));
}

#[test]
fn drm_dev_text_round_trips() {
    assert_eq!(format_drm_dev(226, 128), "226:128");
    assert_eq!(parse_drm_dev("226:128"), Some((226, 128)));
    assert_eq!(parse_drm_dev("+226:128"), Some((226, 128)));
    assert_eq!(parse_drm_dev("226-128"), None);
    assert_eq!(parse_drm_dev("226:"), None);
    assert_eq!(parse_drm_dev("4294967296:1"), None);
    assert_eq!(parse_drm_dev("4294967295:0"), Some((4294967295, 0)));
}

#[test]
fn enumerate_names_and_describes() {
    let gpus = vec![GpuInfo { vendor_id: 0x1002, device_id: 0x7550, driver: "amdgpu".to_string(), ..Default::default() }];
    let gpus = enumerate(gpus, Some("1002  AMD\n\t7550  Navi 48\n"));
    assert_eq!(gpus[0].name, "Navi 48");
    assert_eq!(gpus[0].description, "Navi 48 — amdgpu 0x1002:0x7550");
}

#[test]
fn parses_os_release_name() {
    assert_eq!(parse_os_name("ID=fedora\nNAME=\"Fedora Linux\"\n"), Some("Fedora Linux".to_owned()));
    assert_eq!(parse_os_name("NAME=Ubuntu\n"), Some("Ubuntu".to_owned()));
    assert_eq!(parse_os_name("NAME='Arch Linux'\n"), Some("Arch Linux".to_owned()));
    assert_eq!(parse_os_name("NAME=First\nNAME=Second\\ Linux\n"), Some("Second Linux".to_owned()));
}

#[test]
fn os_release_edge_cases() {
    assert_eq!(parse_os_name(""), None);
    assert_eq!(parse_os_name("# NAME=x\n"), None);
    assert_eq!(parse_os_name("NAME=bad\\"), None);
    assert_eq!(parse_os_name("  NAME = \"Spaced\"  \r\n"), Some("Spaced".to_owned()));
    let info = SystemInfo::load(Some("NAME=\"Test Linux\"\n"), Vec::new());
    assert_eq!(info.os_name(), "Test Linux");
    let info = SystemInfo::load(None, Vec::new());
    assert_eq!(info.os_name(), "");
}

#[test]
fn resolves_render_node_from_system_snapshot() {
    let info = SystemInfo::load(
        None,
        vec![GpuInfo {
            render_node: Some("/dev/dri/renderD128".to_string()),
            render_major: 226,
            render_minor: 128,
            ..Default::default()
        }],
    );
    assert_eq!(info.render_node_for_drm_dev("226:128"), Some("/dev/dri/renderD128"));
    assert!(!info.has_render_device("226:129"));
    assert!(!info.has_render_device("invalid"));
    assert_eq!(info.gpus().len(), 1);
}

#[test]
fn formatted_device_numbers_parse_back() {
    for (major, minor) in [(0, 0), (226, 128), (u32::MAX, 7), (9, u32::MAX)] {
        assert_eq!(parse_drm_dev(&format_drm_dev(major, minor)), Some((major, minor)));
    }
    assert_eq!(parse_drm_dev("226:128:1"), None);
    assert_eq!(parse_drm_dev("invalid"), None);
}
