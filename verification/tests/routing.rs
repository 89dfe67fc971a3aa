use waywallen::routing::{
    default_clear_rgba, full_dst, full_src, LinkDstRect, LinkSrcRect, RendererClearColor,
    RoutingTable, F32_INFINITY_BITS,
};

struct StubRenderer {
    clear: [f32; 4],
}

impl RendererClearColor for StubRenderer {
    fn spec_clear_rgba(&self) -> [u32; 4] {
        self.clear.map(f32::to_bits)
    }

    fn clear_rgba_bits(&self) -> [u32; 4] {
        self.clear.map(f32::to_bits)
    }
}

fn table() -> RoutingTable<StubRenderer> {
    RoutingTable::new()
}

fn floats(bits: [u32; 4]) -> [f32; 4] {
    bits.map(f32::from_bits)
}

#[test]
fn add_remove_link_updates_indexes() {
    let mut t = table();
    let l1 = t.add_link("r1".into(), 1);
    let l2 = t.add_link("r1".into(), 2);
    assert_eq!(t.links_for_display(1).len(), 1);
    assert_eq!(t.links_for_display(2).len(), 1);
    assert_eq!(t.links_for_renderer("r1").len(), 2);

    t.remove_link(l1).unwrap();
    assert!(t.links_for_display(1).is_empty());
    assert_eq!(t.links_for_renderer("r1").len(), 1);
    assert_eq!(t.links_for_display(2)[0].id, l2);
}

#[test]
fn add_link_inherits_renderer_clear_color() {
    let mut t = table();
    t.add_renderer("r1".into(), StubRenderer { clear: [0.1, 0.2, 0.3, 1.0] });

    let link_id = t.add_link("r1".into(), 1);

    assert_eq!(floats(t.get_link(link_id).unwrap().clear_rgba), [0.1, 0.2, 0.3, 1.0]);
}

#[test]
fn remove_renderer_drops_its_links() {
    let mut t = table();
    let _ = t.add_link("r1".into(), 1);
    let _ = t.add_link("r1".into(), 2);
    let _ = t.add_link("r2".into(), 3);
    let removed = t.remove_renderer("r1");
    assert_eq!(removed.len(), 2);
    assert!(t.links_for_renderer("r1").is_empty());
    assert!(t.links_for_display(1).is_empty());
    assert!(t.links_for_display(2).is_empty());
    assert_eq!(t.links_for_display(3).len(), 1);
}

#[test]
fn retarget_renderer_preserves_link_configuration() {
    let mut t = table();
    let link_id = t.add_link("old".into(), 7);
    assert!(t.update_link_geometry(
        link_id,
        Some(LinkSrcRect {
            x: 1.0f32.to_bits(),
            y: 2.0f32.to_bits(),
            w: 3.0f32.to_bits(),
            h: 4.0f32.to_bits(),
        }),
        Some(LinkDstRect {
            x: 5.0f32.to_bits(),
            y: 6.0f32.to_bits(),
            w: 7.0f32.to_bits(),
            h: 8.0f32.to_bits(),
        }),
        Some(2),
        Some([0.1f32, 0.2, 0.3, 1.0].map(f32::to_bits)),
        Some(9),
    ));
    assert!(t.set_link_enabled(link_id, false));

    assert_eq!(t.retarget_renderer_links("old", "new"), vec![7]);
    assert!(t.links_for_renderer("old").is_empty());
    let link = t.links_for_renderer("new").pop().unwrap();
    assert_eq!(link.id, link_id);
    assert_eq!(link.display_id, 7);
    assert!(!link.enabled);
    assert_eq!(link.transform, 2);
    assert_eq!(floats(link.clear_rgba), [0.1, 0.2, 0.3, 1.0]);
    assert_eq!(link.z_order, 9);
    assert_eq!(f32::from_bits(link.src_rect.x), 1.0);
    assert_eq!(f32::from_bits(link.dst_rect.x), 5.0);
}

#[test]
fn add_link_evicts_prior_link_on_same_display() {
    let mut t = table();
    let l_a = t.add_link("rA".into(), 1);
    let l_b = t.add_link("rB".into(), 1);

    assert_ne!(l_a, l_b, "second add returns a fresh id");
    let links = t.links_for_display(1);
    assert_eq!(links.len(), 1, "exactly one link survives");
    assert_eq!(links[0].id, l_b);
    assert_eq!(links[0].renderer_id, "rB");
    assert!(t.links_for_renderer("rA").is_empty(), "rA fully unlinked");
    assert_eq!(t.links_for_renderer("rB").len(), 1);
}

#[test]
fn remove_display_drops_its_links() {
    let mut t = table();
    let _ = t.add_link("r1".into(), 1);
    let _ = t.add_link("r2".into(), 1);
    let removed = t.remove_display(1);
    assert_eq!(removed.len(), 1);
    assert_eq!(removed[0].renderer_id, "r2");
    assert!(t.links_for_renderer("r1").is_empty());
    assert!(t.links_for_renderer("r2").is_empty());
}

#[test]
fn new_links_start_at_full_extent_with_default_clear_color() {
    let mut t = table();
    let id = t.add_link("unknown".into(), 4);
    assert_eq!(id, 1);
    let link = t.get_link(id).unwrap().clone();
    assert!(link.enabled);
    assert_eq!(link.src_rect, full_src());
    assert_eq!(link.dst_rect, full_dst());
    assert_eq!(link.src_rect.w, F32_INFINITY_BITS);
    assert_eq!(f32::from_bits(link.dst_rect.h), f32::INFINITY);
    assert_eq!(link.transform, 0);
    assert_eq!(link.z_order, 0);
    assert_eq!(floats(link.clear_rgba), [0.0, 0.0, 0.0, 1.0]);
    assert_eq!(link.clear_rgba, default_clear_rgba());
}

#[test]
fn link_ids_keep_increasing_after_removal() {
    let mut t = table();
    let a = t.add_link("r".into(), 1);
    assert!(t.remove_link(a).is_some());
    assert!(t.remove_link(a).is_none());
    let b = t.add_link("r".into(), 1);
    assert_eq!((a, b), (1, 2));
    assert!(t.get_link(a).is_none());
}

#[test]
fn geometry_update_reports_only_real_changes() {
    let mut t = table();
    let id = t.add_link("r".into(), 1);
    assert!(!t.update_link_geometry(id + 1, None, None, Some(1), None, None));
    assert!(!t.update_link_geometry(id, None, None, None, None, None));
    assert!(!t.update_link_geometry(id, Some(full_src()), None, Some(0), None, Some(0)));
    assert!(t.update_link_geometry(id, None, None, None, None, Some(-3)));
    assert_eq!(t.get_link(id).unwrap().z_order, -3);
    assert!(!t.set_link_enabled(id, true));
    assert!(t.set_link_enabled(id, false));
    assert!(!t.set_link_enabled(id + 1, false));
}

#[test]
fn retarget_appends_after_the_new_renderers_links_and_sorts_displays() {
    let mut t = table();
    let own = t.add_link("new".into(), 3);
    let first = t.add_link("old".into(), 9);
    let second = t.add_link("old".into(), 2);
    assert_eq!(t.retarget_renderer_links("old", "new"), vec![2, 9]);
    let ids: Vec<u64> = t.links_for_renderer("new").iter().map(|l| l.id).collect();
    assert_eq!(ids, vec![own, first, second]);
    assert_eq!(t.retarget_renderer_links("new", "new"), vec![3, 9, 2]);
}

#[test]
fn renderer_registry_replaces_by_id_and_orders_first_by_code_point() {
    let mut t = table();
    assert!(t.first_renderer().is_none());
    t.add_renderer("beta".into(), StubRenderer { clear: [1.0; 4] });
    t.add_renderer("Alpha".into(), StubRenderer { clear: [0.5; 4] });
    t.add_renderer("alpha".into(), StubRenderer { clear: [0.25; 4] });
    t.add_renderer("beta".into(), StubRenderer { clear: [0.75; 4] });
    assert_eq!(t.renderer_ids(), vec!["beta".to_string(), "Alpha".to_string(), "alpha".to_string()]);
    assert_eq!(t.first_renderer().as_deref(), Some("Alpha"));
    assert_eq!(t.get_renderer("beta").unwrap().clear, [0.75; 4]);
    assert!(t.get_renderer("gamma").is_none());
    let _ = t.add_link("alpha".into(), 1);
    assert_eq!(t.remove_renderer("alpha"), vec![(1, 1)]);
    assert_eq!(t.renderer_ids(), vec!["beta".to_string(), "Alpha".to_string()]);
    assert!(t.links_for_display(1).is_empty());
}

#[test]
fn renderers_fully_replaced_by_a_relink() {
    let mut t = table();
    t.add_renderer("a".into(), StubRenderer { clear: [0.0; 4] });
    t.add_renderer("b".into(), StubRenderer { clear: [0.0; 4] });
    t.add_renderer("orphan".into(), StubRenderer { clear: [0.0; 4] });
    let _ = t.add_link("a".into(), 1);
    let _ = t.add_link("a".into(), 2);
    let b3 = t.add_link("b".into(), 3);
    assert_eq!(t.renderers_fully_replaced_by(Some(&[1, 2])), vec!["a", "orphan"]);
    assert_eq!(t.renderers_fully_replaced_by(Some(&[1])), vec!["orphan"]);
    assert_eq!(t.renderers_fully_replaced_by(None), vec!["a", "b", "orphan"]);
    assert!(t.set_link_enabled(b3, false));
    assert_eq!(t.renderers_fully_replaced_by(Some(&[])), vec!["b", "orphan"]);
}

#[test]
fn relink_points_existing_displays_at_the_new_renderer() {
    let mut t = table();
    let old1 = t.add_link("old".into(), 1);
    let keep = t.add_link("other".into(), 3);
    let applied = t.relink_displays_to(&[1, 2, 9], &[1, 2, 3], "new");
    assert_eq!(applied, vec![1, 2]);
    let fed1 = t.links_for_display(1);
    assert_eq!(fed1.len(), 1);
    assert_eq!(fed1[0].renderer_id, "new");
    assert!(fed1[0].enabled);
    assert!(fed1[0].id > old1);
    assert_eq!(t.links_for_display(2)[0].renderer_id, "new");
    assert!(t.links_for_display(9).is_empty());
    assert_eq!(t.links_for_display(3)[0].id, keep);
    assert!(t.links_for_renderer("old").is_empty());
}

#[test]
fn activation_follows_manual_and_automatic_stops() {
    let mut t = table();
    t.add_link("a".into(), 1);
    t.add_link("b".into(), 2);
    t.add_link("a".into(), 3);

    // Display 2 is stopped automatically; display 4 has no link.
    let (changed, reenabled) = t.apply_activation(&[(1, false), (2, true), (4, true)], false);
    assert_eq!(changed, vec![2]);
    assert!(reenabled.is_empty());
    assert!(t.links_for_display(1)[0].enabled);
    assert!(!t.links_for_display(2)[0].enabled);
    assert!(t.all_links_disabled("b"));
    assert!(!t.all_links_disabled("a"));
    assert!(!t.all_links_disabled("nobody"));

    // A manual stop disables every listed display.
    let (mut changed, _) = t.apply_activation(&[(1, false), (2, false), (3, false)], true);
    changed.sort();
    assert_eq!(changed, vec![1, 3]);
    assert!(t.all_links_disabled("a"));

    // Lifting it enables them again and names their renderers.
    let (mut changed, mut reenabled) = t.apply_activation(&[(1, false), (2, false), (3, false)], false);
    changed.sort();
    reenabled.sort();
    assert_eq!(changed, vec![1, 2, 3]);
    assert_eq!(reenabled, vec!["a".to_string(), "a".to_string(), "b".to_string()]);
    assert!(!t.all_links_disabled("b"));
}

#[test]
fn repeated_activation_changes_nothing() {
    let mut t = table();
    t.add_link("a".into(), 1);
    t.add_link("b".into(), 2);
    let stops = [(1, true), (2, false)];
    let (changed, _) = t.apply_activation(&stops, false);
    assert_eq!(changed, vec![1]);
    let (changed, reenabled) = t.apply_activation(&stops, false);
    assert!(changed.is_empty());
    assert!(reenabled.is_empty());
}
