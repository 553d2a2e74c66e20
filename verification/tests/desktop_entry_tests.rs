use generic_launcher::desktop_entry::{
    application_folders, has_desktop_extension, partition_entries, DesktopCandidate,
    XdgDesktopEntry,
};

fn entry(name: &str) -> XdgDesktopEntry {
    XdgDesktopEntry { display_name: name.to_string(), keywords: Vec::new(), path: String::new() }
}

#[test]
fn default_folders() {
    let folders = application_folders(Some("/home/ann"), None, None);
    assert_eq!(
        folders,
        vec![
            "/home/ann/.local/share/applications".to_string(),
            "/usr/local/share/applications".to_string(),
            "/usr/share/applications".to_string(),
        ]
    );
}

#[test]
fn home_unset_uses_tilde() {
    let folders = application_folders(None, None, Some("/opt/share"));
    assert_eq!(
        folders,
        vec!["~/.local/share/applications".to_string(), "/opt/share/applications".to_string()]
    );
}

#[test]
fn data_home_overrides_home() {
    let folders = application_folders(Some("/home/ann"), Some("/data"), Some("/usr/share"));
    assert_eq!(
        folders,
        vec!["/data/applications".to_string(), "/usr/share/applications".to_string()]
    );
}

#[test]
fn trailing_slash_is_dropped_and_duplicates_listed_once() {
    let folders = application_folders(
        Some("/home/ann"),
        Some("/usr/share/"),
        Some("/usr/share:/usr/local/share//:/usr/share"),
    );
    assert_eq!(
        folders,
        vec![
            "/usr/share/applications".to_string(),
            "/usr/local/share//applications".to_string(),
        ]
    );
}

#[test]
fn empty_directory_list_entries() {
    let folders = application_folders(Some("/h"), Some(""), Some("::"));
    assert_eq!(folders, vec!["/applications".to_string()]);
}

#[test]
fn desktop_extension() {
    assert!(has_desktop_extension("firefox.desktop"));
    assert!(has_desktop_extension("a.b.desktop"));
    assert!(!has_desktop_extension(".desktop"));
    assert!(!has_desktop_extension("firefox.desktop.bak"));
    assert!(!has_desktop_extension("desktop"));
    assert!(!has_desktop_extension("firefox.Desktop"));
    assert!(!has_desktop_extension("firefox."));
}

#[test]
fn try_from_uses_name_or_file_name() {
    let e = XdgDesktopEntry::try_from(
        "/x/firefox.desktop".to_string(),
        vec!["browser".to_string()],
        None,
        Some("Firefox".to_string()),
        "firefox.desktop".to_string(),
    )
    .unwrap();
    assert_eq!(e.display_name, "Firefox");
    assert_eq!(e.keywords, vec!["browser".to_string()]);
    assert_eq!(e.path, "/x/firefox.desktop");
    let e = XdgDesktopEntry::try_from(
        "/x/tool.desktop".to_string(),
        Vec::new(),
        Some("false".to_string()),
        None,
        "tool.desktop".to_string(),
    )
    .unwrap();
    assert_eq!(e.display_name, "tool.desktop");
}

#[test]
fn try_from_skips_no_display_entries() {
    let e = XdgDesktopEntry::try_from(
        "/x/hidden.desktop".to_string(),
        Vec::new(),
        Some("true".to_string()),
        Some("Hidden".to_string()),
        "hidden.desktop".to_string(),
    );
    assert!(e.is_none());
}

#[test]
fn partition_keeps_order() {
    let candidates = vec![
        DesktopCandidate { entry: entry("a"), is_custom: false },
        DesktopCandidate { entry: entry("shot"), is_custom: true },
        DesktopCandidate { entry: entry("b"), is_custom: false },
        DesktopCandidate { entry: entry("shot2"), is_custom: true },
    ];
    let (entries, custom) = partition_entries(candidates);
    let names: Vec<String> = entries.iter().map(|e| e.display_name.clone()).collect();
    let custom_names: Vec<String> = custom.iter().map(|e| e.display_name.clone()).collect();
    assert_eq!(names, vec!["a".to_string(), "b".to_string()]);
    assert_eq!(custom_names, vec!["shot".to_string(), "shot2".to_string()]);
}
