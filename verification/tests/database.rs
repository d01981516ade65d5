use appstream_cache::{Database, Dep11Package, IconSize, LangMap, PackageEvent};

fn package(id: &str, name: &str) -> Dep11Package {
    let mut names = LangMap::new();
    names.set("C".to_string(), name.to_string());
    let mut summary = LangMap::new();
    summary.set("C".to_string(), format!("{} summary", id));
    Dep11Package {
        type_: "desktop-application".to_string(),
        id: id.to_string(),
        name: names,
        icon: None,
        package: format!("{}-bin", id),
        summary,
        description: None,
        categories: None,
        license: None,
        urls: None,
        launchable: None,
    }
}

fn dep11(origin: &str, id: &str, name: &str) -> PackageEvent {
    PackageEvent::Dep11 { origin: origin.to_string(), info: package(id, name) }
}

#[test]
fn refresh_rebuild_leaves_no_trace_of_omitted_package() {
    let mut db = Database::new(
        "/tmp/appstream_cache_test_db_p4".to_string(),
        "en".to_string(),
    )
    .unwrap();

    db.begin_refresh();
    db.apply_event(dep11("main", "keep.app", "KeepMe")).unwrap();
    db.apply_event(dep11("main", "drop.app", "DropMe")).unwrap();
    db.flush().unwrap();
    assert_eq!(db.search_for("DropMe").len(), 1);

    db.begin_refresh();
    db.apply_event(dep11("main", "keep.app", "KeepMe")).unwrap();
    db.flush().unwrap();

    assert_eq!(db.search_for("DropMe").len(), 0);
    let origin = db.get_origin("main").expect("origin exists");
    assert_eq!(origin.id(0), Some("keep.app".to_string()));
    assert_eq!(origin.id(1), None);
}

#[test]
fn icon_store_accumulates_across_refreshes() {
    let mut db = Database::new(
        "/tmp/appstream_cache_test_db_p5".to_string(),
        "en".to_string(),
    )
    .unwrap();

    db.begin_refresh();
    db.apply_event(PackageEvent::Dep11Icon {
        size: IconSize::Size48,
        name: "first.png".to_string(),
        buffer: vec![1, 2, 3],
    })
    .unwrap();
    db.flush().unwrap();

    db.begin_refresh();
    db.apply_event(PackageEvent::Dep11Icon {
        size: IconSize::Size48,
        name: "second.png".to_string(),
        buffer: vec![4],
    })
    .unwrap();
    db.flush().unwrap();

    assert_eq!(db.icon_blob(IconSize::Size48, "first.png").unwrap(), Some(vec![1, 2, 3]));
    assert_eq!(db.icon_blob(IconSize::Size48, "second.png").unwrap(), Some(vec![4]));
    assert_eq!(db.icon_blob(IconSize::Size64, "first.png").unwrap(), None);
}

#[test]
fn search_matches_substring_case_sensitively() {
    let mut db = Database::new(
        "/tmp/appstream_cache_test_db_p6".to_string(),
        "en".to_string(),
    )
    .unwrap();

    db.begin_refresh();
    db.apply_event(dep11("main", "files.app", "Files")).unwrap();
    db.apply_event(dep11("main", "gfiles.app", "GNOME Files")).unwrap();
    db.apply_event(dep11("main", "editor.app", "Text Editor")).unwrap();
    db.flush().unwrap();

    let mut hits: Vec<(String, u32, String)> = db.search_for("File");
    hits.sort_by_key(|h| h.1);
    assert_eq!(
        hits,
        vec![
            ("main".to_string(), 0, "Files".to_string()),
            ("main".to_string(), 1, "GNOME Files".to_string()),
        ]
    );

    assert_eq!(db.search_for("F").len(), 0);
    assert_eq!(db.search_for("files").len(), 0);
}

#[test]
fn media_url_event_reaches_origin() {
    let mut db = Database::new(
        "/tmp/appstream_cache_test_db_media".to_string(),
        "en".to_string(),
    )
    .unwrap();
    db.begin_refresh();
    db.apply_event(PackageEvent::MediaUrl {
        origin: "main".to_string(),
        base_url: "https://example.org/media".to_string(),
    })
    .unwrap();
    let origin = db.get_origin("main").expect("origin exists");
    assert_eq!(origin.media_url(), Some("https://example.org/media".to_string()));
    assert!(db.get_origin("absent").is_none());
}
