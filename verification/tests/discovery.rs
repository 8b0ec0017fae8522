use protostar::application_roots;
use protostar::filter_desktop_paths;
use protostar::png_output_path;

fn strings(items: &[&str]) -> Vec<String> {
    items.iter().map(|s| s.to_string()).collect()
}

#[test]
fn application_roots_append_applications_then_local() {
    let roots = application_roots(&Some("/x:/y".to_string()), "/home/u");
    assert_eq!(
        roots,
        strings(&[
            "/x/applications",
            "/y/applications",
            "/home/u/.local/share/applications",
        ])
    );
}

#[test]
fn application_roots_default_when_unset() {
    let roots = application_roots(&None, "/home/u");
    assert_eq!(
        roots,
        strings(&[
            "/usr/local/share/applications",
            "/usr/share/applications",
            "/home/u/.local/share/applications",
        ])
    );
}

#[test]
fn filter_keeps_only_desktop_extension() {
    let walked = strings(&[
        "/a/x.desktop",
        "/a/y.txt",
        "/a/z",
        "b.desktop",
        "/a/desktop",
        "/a/w.desktop.bak",
    ]);
    assert_eq!(
        filter_desktop_paths(&walked),
        strings(&["/a/x.desktop", "b.desktop"])
    );
}

#[test]
fn join_path_follows_unix_rules() {
    assert_eq!(protostar::join_path("a/b", "c"), "a/b/c".to_string());
    assert_eq!(protostar::join_path("a/b/", "c"), "a/b/c".to_string());
    assert_eq!(protostar::join_path("", "c"), "c".to_string());
    assert_eq!(protostar::join_path("a/b", "/abs"), "/abs".to_string());
}

#[test]
fn name_stem_and_extension() {
    assert_eq!(protostar::file_name("/a/b/c.png"), "c.png".to_string());
    assert_eq!(protostar::file_stem("/a/b/c.png"), "c".to_string());
    assert_eq!(protostar::extension("/a/b/c.png"), Some("png".to_string()));
    assert_eq!(protostar::extension("/a/b/c"), None);
    assert_eq!(protostar::extension("/a/b/.hidden"), None);
    assert_eq!(protostar::file_stem("/a/b/.hidden"), ".hidden".to_string());
    assert_eq!(protostar::extension("/a.d/c"), None);
    assert_eq!(protostar::extension("arc.tar.gz"), Some("gz".to_string()));
    assert_eq!(protostar::file_stem("arc.tar.gz"), "arc.tar".to_string());
    assert_eq!(protostar::extension("trail."), Some("".to_string()));
}

#[test]
fn with_extension_replaces_or_appends() {
    assert_eq!(
        protostar::with_extension("/a/b.svg", "png"),
        "/a/b.png".to_string()
    );
    assert_eq!(
        protostar::with_extension("/a/b", "png"),
        "/a/b.png".to_string()
    );
    assert_eq!(
        protostar::with_extension(".hidden", "png"),
        ".hidden.png".to_string()
    );
}

#[test]
fn png_output_path_lands_in_cache_dir() {
    assert_eq!(
        png_output_path("cache", "/work/icon.svg"),
        "cache/icon.png".to_string()
    );
    assert_eq!(
        png_output_path(".", "/work/icon.svg"),
        "./icon.png".to_string()
    );
    assert_eq!(
        png_output_path("cache", "/work/icon.svg"),
        png_output_path("cache", "/work/icon.svg")
    );
}
