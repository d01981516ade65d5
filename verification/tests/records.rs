use appstream_cache::{CachedIcon, Icon, IconSize, LangMap};
use appstream_cache::events::{is_components_archive, is_icons_archive};

#[test]
fn langmap_prefers_configured_language() {
    let mut m = LangMap::new();
    m.set("C".to_string(), "untranslated".to_string());
    m.set("de".to_string(), "übersetzt".to_string());
    assert_eq!(m.localized("de"), Some("übersetzt".to_string()));
}

#[test]
fn langmap_falls_back_to_c() {
    let mut m = LangMap::new();
    m.set("C".to_string(), "untranslated".to_string());
    assert_eq!(m.localized("de"), Some("untranslated".to_string()));
}

#[test]
fn langmap_unresolvable() {
    let mut m = LangMap::new();
    m.set("fr".to_string(), "traduit".to_string());
    assert_eq!(m.localized("de"), None);
    assert_eq!(LangMap::new().localized("de"), None);
}

#[test]
fn icon_size_classification() {
    assert_eq!(
        IconSize::classify("Ubuntu_dists_jammy_main_dep11_icons-48x48.tar.gz"),
        Some(IconSize::Size48)
    );
    assert_eq!(
        IconSize::classify("x_dep11_icons-64x64.tar.gz"),
        Some(IconSize::Size64)
    );
    assert_eq!(
        IconSize::classify("x_dep11_icons-128x128.tar.gz"),
        Some(IconSize::Size128)
    );
    assert_eq!(IconSize::classify("x_dep11_icons-256x256.tar.gz"), None);
    assert_eq!(IconSize::Size48.token(), "48x48");
    assert_eq!(IconSize::Size64.token(), "64x64");
    assert_eq!(IconSize::Size128.token(), "128x128");
}

#[test]
fn archive_name_classification() {
    assert!(is_components_archive(
        "Ubuntu_dists_jammy_main_dep11_Components-amd64.yml.gz"
    ));
    assert!(!is_components_archive("Ubuntu_dists_jammy_main_dep11_icons-48x48.tar.gz"));
    assert!(is_icons_archive("Ubuntu_dists_jammy_main_dep11_icons-48x48.tar.gz"));
    assert!(!is_icons_archive("Ubuntu_dists_jammy_InRelease"));
}

#[test]
fn icon_encoding_exact_bytes() {
    let icon = Icon {
        cached: Some(vec![CachedIcon { name: "a".to_string(), width: 48, height: 48 }]),
        stock: None,
        remote: None,
    };
    let expected: Vec<u8> = vec![
        1, // cached present
        1, 0, 0, 0, 0, 0, 0, 0, // one cached variant
        1, 0, 0, 0, 0, 0, 0, 0, // name length
        97, // "a"
        48, 0, // width
        48, 0, // height
        0, // no stock name
        0, // no remote variants
    ];
    assert_eq!(icon.encode(), expected);
}

#[test]
fn empty_icon_encoding() {
    let icon = Icon { cached: None, stock: None, remote: None };
    assert_eq!(icon.encode(), vec![0, 0, 0]);
}
