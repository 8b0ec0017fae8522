use protostar::DesktopFile;
use protostar::Icon;
use protostar::ProcessStep;
use protostar::RawIconType;

fn descriptor(path: &str, icon: Option<&str>) -> DesktopFile {
    DesktopFile {
        path: path.to_string(),
        name: None,
        command: None,
        categories: Vec::new(),
        icon: icon.map(|s| s.to_string()),
    }
}

fn strings(items: &[&str]) -> Vec<String> {
    items.iter().map(|s| s.to_string()).collect()
}

#[test]
fn classify_by_extension() {
    assert_eq!(
        RawIconType::from_path("a.png".to_string()),
        Some(RawIconType::Png("a.png".to_string()))
    );
    assert_eq!(
        RawIconType::from_path("a.svg".to_string()),
        Some(RawIconType::Svg("a.svg".to_string()))
    );
    assert_eq!(
        RawIconType::from_path("a.glb".to_string()),
        Some(RawIconType::Gltf("a.glb".to_string()))
    );
    assert_eq!(
        RawIconType::from_path("a.gltf".to_string()),
        Some(RawIconType::Gltf("a.gltf".to_string()))
    );
    assert_eq!(RawIconType::from_path("a.txt".to_string()), None);
    assert_eq!(RawIconType::from_path("noext".to_string()), None);
    assert_eq!(RawIconType::from_path(".hidden".to_string()), None);
}

#[test]
fn no_icon_field_resolves_empty() {
    let d = descriptor("apps/foo.desktop", None);
    let entries = strings(&["/theme/apps/foo.png"]);
    assert!(d.get_raw_icons(false, true, &entries).is_empty());
    assert!(d.get_raw_icons(true, true, &entries).is_empty());
    assert!(d.get_raw_icons(false, false, &entries).is_empty());
}

#[test]
fn direct_path_short_circuits_theme_search() {
    let d = descriptor("apps/foo.desktop", Some("icon.png"));
    let entries = strings(&[
        "/usr/share/icons/hicolor/128x128/apps/icon.png",
        "/usr/share/icons/hicolor/32x32/apps/icon.svg",
    ]);
    let icons = d.get_raw_icons(true, true, &entries);
    assert_eq!(
        icons,
        vec![RawIconType::Png("apps/foo.desktop/icon.png".to_string())]
    );
}

#[test]
fn direct_path_with_unrecognized_extension_resolves_empty() {
    let d = descriptor("apps/foo.desktop", Some("icon.xpm"));
    let entries = strings(&["/theme/apps/icon.png"]);
    assert!(d.get_raw_icons(true, true, &entries).is_empty());
}

#[test]
fn unset_theme_roots_resolve_empty() {
    let d = descriptor("apps/foo.desktop", Some("krita"));
    let entries = strings(&["/theme/apps/krita.png"]);
    assert!(d.get_raw_icons(false, false, &entries).is_empty());
}

#[test]
fn test_get_icon_path() {
    let d = descriptor("", Some("krita"));
    let entries = strings(&[
        "/usr/share/icons/hicolor/16x16/apps/krita.png",
        "/usr/share/icons/hicolor/16x16/apps/gimp.png",
    ]);
    let icon_paths = d.get_raw_icons(false, true, &entries);
    assert!(icon_paths.contains(&RawIconType::Png(
        "/usr/share/icons/hicolor/16x16/apps/krita.png".to_string()
    )));
}

#[test]
fn theme_entries_filter_by_stem_and_classification() {
    let d = descriptor("apps/foo.desktop", Some("krita"));
    let entries = strings(&[
        "/a/icons/hicolor/128x128/apps/krita.png",
        "/a/icons/hicolor/128x128/apps/krita.txt",
        "/a/icons/hicolor/scalable/apps/krita.svg",
        "/a/icons/hicolor/scalable/apps/other.png",
    ]);
    let icons = d.get_raw_icons(false, true, &entries);
    assert_eq!(
        icons,
        vec![
            RawIconType::Png("/a/icons/hicolor/128x128/apps/krita.png".to_string()),
            RawIconType::Svg("/a/icons/hicolor/scalable/apps/krita.svg".to_string()),
        ]
    );
}

#[test]
fn theme_search_dirs_order_is_root_major_size_minor() {
    let dirs = protostar::theme_search_dirs("/a:/b", "hicolor");
    assert_eq!(
        dirs,
        strings(&[
            "/a/icons/hicolor/128x128/apps",
            "/a/icons/hicolor/scalable/apps",
            "/a/icons/hicolor/256x256/apps",
            "/a/icons/hicolor/64x64/apps",
            "/a/icons/hicolor/32x32/apps",
            "/b/icons/hicolor/128x128/apps",
            "/b/icons/hicolor/scalable/apps",
            "/b/icons/hicolor/256x256/apps",
            "/b/icons/hicolor/64x64/apps",
            "/b/icons/hicolor/32x32/apps",
        ])
    );
}

#[test]
fn split_colons_keeps_empty_segments() {
    assert_eq!(
        protostar::split_colons("a::b:"),
        strings(&["a", "", "b", ""])
    );
    assert_eq!(protostar::split_colons(""), strings(&[""]));
}

#[test]
fn process_step_dispatch() {
    assert_eq!(
        RawIconType::Png("a/b.png".to_string()).process_step(),
        ProcessStep::Ready(Icon::Png("a/b.png".to_string()))
    );
    assert_eq!(
        RawIconType::Gltf("a/b.glb".to_string()).process_step(),
        ProcessStep::Ready(Icon::Gltf("a/b.glb".to_string()))
    );
    assert_eq!(
        RawIconType::Svg("a/b.svg".to_string()).process_step(),
        ProcessStep::Rasterize {
            source: "a/b.svg".to_string(),
            target: "a/b.png".to_string(),
        }
    );
}

#[test]
fn icon_theme_defaults_to_hicolor() {
    assert_eq!(protostar::icon_theme(&None), "hicolor".to_string());
    assert_eq!(
        protostar::icon_theme(&Some("Adwaita".to_string())),
        "Adwaita".to_string()
    );
}
