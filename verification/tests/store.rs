use appstream_cache::{CachedIcon, Dep11Package, Icon, LangMap, OriginDb};

fn named_package(id: &str, name: Option<&str>, icon: Option<Icon>) -> Dep11Package {
    let mut names = LangMap::new();
    if let Some(n) = name {
        names.set("C".to_string(), n.to_string());
    }
    let mut summary = LangMap::new();
    if name.is_some() {
        summary.set("C".to_string(), format!("{} summary", id));
    }
    Dep11Package {
        type_: "desktop-application".to_string(),
        id: id.to_string(),
        name: names,
        icon,
        package: format!("{}-bin", id),
        summary,
        description: None,
        categories: None,
        license: None,
        urls: None,
        launchable: None,
    }
}

#[test]
fn entity_ids_are_dense_despite_skips() {
    let mut db = OriginDb::new("origin-p3", "/tmp/appstream_cache_test_store_a").unwrap();
    db.add_dep11_package(named_package("alpha", Some("Alpha"), None), "en").unwrap();
    // no resolvable name: consumes an id, lands in no index
    db.add_dep11_package(named_package("beta", None, None), "en").unwrap();
    db.add_dep11_package(named_package("gamma", Some("Gamma"), None), "en").unwrap();

    assert_eq!(db.id(0), Some("alpha".to_string()));
    assert_eq!(db.id(1), None);
    assert_eq!(db.id(2), Some("gamma".to_string()));
    assert_eq!(db.id(3), None);

    let mut entries = db.iter();
    entries.sort_by_key(|e| e.0);
    assert_eq!(entries, vec![(0, "Alpha".to_string()), (2, "Gamma".to_string())]);
}

#[test]
fn lookup_fields_and_summary() {
    let mut db = OriginDb::new("origin-fields", "/tmp/appstream_cache_test_store_b").unwrap();
    db.add_dep11_package(named_package("alpha", Some("Alpha"), None), "en").unwrap();
    assert_eq!(db.summary(0), Some("alpha summary".to_string()));
    assert_eq!(db.summary(1), None);
}

#[test]
fn icon_key_of_entity_without_descriptor_is_absent() {
    let mut db = OriginDb::new("origin-p7", "/tmp/appstream_cache_test_store_c").unwrap();
    db.add_dep11_package(named_package("noicon", Some("NoIcon"), None), "en").unwrap();
    let icon = Icon {
        cached: Some(vec![CachedIcon { name: "with.png".to_string(), width: 48, height: 48 }]),
        stock: None,
        remote: None,
    };
    db.add_dep11_package(named_package("withicon", Some("WithIcon"), Some(icon)), "en").unwrap();

    assert_eq!(db.icon(0), None);
    assert_eq!(db.icon(1), Some("with.png".to_string()));
}

#[test]
fn media_url_last_write_wins() {
    let mut db = OriginDb::new("origin-media", "/tmp/appstream_cache_test_store_d").unwrap();
    assert_eq!(db.media_url(), None);
    db.set_media_url("https://example.org/media/a").unwrap();
    db.set_media_url("https://example.org/media/b").unwrap();
    assert_eq!(db.media_url(), Some("https://example.org/media/b".to_string()));
}

#[test]
fn name_collision_overwrites_reverse_entry() {
    let mut db = OriginDb::new("origin-collide", "/tmp/appstream_cache_test_store_e").unwrap();
    db.add_dep11_package(named_package("first", Some("Shared Name"), None), "en").unwrap();
    db.add_dep11_package(named_package("second", Some("Shared Name"), None), "en").unwrap();
    let entries = db.iter();
    assert_eq!(entries, vec![(1, "Shared Name".to_string())]);
    // both entities still occupy their id-keyed slots
    assert_eq!(db.id(0), Some("first".to_string()));
    assert_eq!(db.id(1), Some("second".to_string()));
}
