use waywallen::catalog::{CatalogItem, SourceCatalog};

fn item(wp_type: &str, item_id: &str, entry: u32) -> CatalogItem<u32> {
    CatalogItem { wp_type: wp_type.to_string(), item_id: item_id.to_string(), entry }
}

#[test]
fn catalog_lists_by_type_and_finds_by_id() {
    let mut catalog: SourceCatalog<u32> = SourceCatalog::new();
    assert!(catalog.list().is_empty());
    catalog.replace(vec![item("video", "a", 1), item("image", "b", 2), item("video", "c", 3), item("video", "a", 4)]);
    assert_eq!(catalog.list().len(), 4);
    assert_eq!(catalog.list_by_type("video"), vec![0, 2, 3]);
    assert_eq!(catalog.list_by_type("image"), vec![1]);
    assert!(catalog.list_by_type("scene").is_empty());
    assert_eq!(catalog.get("a"), Some(&1));
    assert_eq!(catalog.get("c"), Some(&3));
    assert_eq!(catalog.get("zz"), None);

    catalog.replace(vec![item("scene", "d", 5)]);
    assert_eq!(catalog.get("a"), None);
    assert_eq!(catalog.list_by_type("scene"), vec![0]);
    catalog.clear();
    assert!(catalog.list().is_empty());
}
