use protostar::parse_desktop_lines;
use protostar::split_semicolons;

fn lines_of(data: &str) -> Vec<String> {
    data.lines().map(|l| l.to_string()).collect()
}

#[test]
fn test_parse_desktop_file() {
    let data = "[Desktop Entry]\nName=Test\nExec=test\nCategories=A;B;C\nIcon=test.png";
    let desktop_file = parse_desktop_lines("test.desktop".to_string(), &lines_of(data));
    assert_eq!(desktop_file.name, Some("Test".to_string()));
    assert_eq!(desktop_file.command, Some("test".to_string()));
    assert_eq!(
        desktop_file.categories,
        vec!["A".to_string(), "B".to_string(), "C".to_string()]
    );
    assert_eq!(desktop_file.icon, Some("test.png".to_string()));
}

#[test]
fn parse_skips_comments_and_section_headers() {
    let data = "# a comment\n[Desktop Entry]\nName=Test\nExec=test\nCategories=A;B;C\nIcon=test.png";
    let d = parse_desktop_lines("app.desktop".to_string(), &lines_of(data));
    assert_eq!(d.path, "app.desktop".to_string());
    assert_eq!(d.name, Some("Test".to_string()));
    assert_eq!(d.command, Some("test".to_string()));
    assert_eq!(d.categories, vec!["A".to_string(), "B".to_string(), "C".to_string()]);
    assert_eq!(d.icon, Some("test.png".to_string()));
}

#[test]
fn parse_keeps_path_when_fields_absent() {
    let d = parse_desktop_lines("only/path.desktop".to_string(), &Vec::new());
    assert_eq!(d.path, "only/path.desktop".to_string());
    assert_eq!(d.name, None);
    assert_eq!(d.command, None);
    assert!(d.categories.is_empty());
    assert_eq!(d.icon, None);
}

#[test]
fn parse_last_occurrence_wins() {
    let data = "Name=First\nName=Second\nIcon=a.png\nIcon=b.png";
    let d = parse_desktop_lines("x.desktop".to_string(), &lines_of(data));
    assert_eq!(d.name, Some("Second".to_string()));
    assert_eq!(d.icon, Some("b.png".to_string()));
}

#[test]
fn parse_ignores_unknown_keys_and_lines_without_equals() {
    let data = "Comment=hello\njust a line\nName=Keep\nTerminal=false";
    let d = parse_desktop_lines("x.desktop".to_string(), &lines_of(data));
    assert_eq!(d.name, Some("Keep".to_string()));
    assert_eq!(d.command, None);
    assert_eq!(d.icon, None);
}

#[test]
fn parse_splits_on_first_equals_only() {
    let data = "Exec=env FOO=bar run";
    let d = parse_desktop_lines("x.desktop".to_string(), &lines_of(data));
    assert_eq!(d.command, Some("env FOO=bar run".to_string()));
}

#[test]
fn categories_drop_empty_segments_keep_order() {
    assert_eq!(
        split_semicolons("A;;B;"),
        vec!["A".to_string(), "B".to_string()]
    );
    let data = "Categories=A;;B;";
    let d = parse_desktop_lines("x.desktop".to_string(), &lines_of(data));
    assert_eq!(d.categories, vec!["A".to_string(), "B".to_string()]);
}

#[test]
fn categories_keep_duplicates() {
    assert_eq!(
        split_semicolons("A;B;A"),
        vec!["A".to_string(), "B".to_string(), "A".to_string()]
    );
    assert_eq!(split_semicolons(""), Vec::<String>::new());
    assert_eq!(split_semicolons(";;;"), Vec::<String>::new());
}
