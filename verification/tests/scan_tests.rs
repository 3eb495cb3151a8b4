use hyprlauncher::cache::AppCache;
use hyprlauncher::desktop::{desktop_attr, desktop_entry_from_file, has_desktop_extension, DesktopFile};
use hyprlauncher::entry::EntryType;
use hyprlauncher::heatmap::Heatmap;
use hyprlauncher::scan::{build_cache, merge_path_results, scan_desktop_sources, PathHit};
use hyprlauncher::text::split_string;

const FIREFOX_DESKTOP: &str =
    "[Desktop Entry]\nName=Firefox\nExec=firefox %u\nIcon=firefox\nType=Application\n";

#[test]
fn desktop_entry_parses_exact_fields() {
    let mut heat = Heatmap::new();
    heat.set("Firefox", 5);
    let e = desktop_entry_from_file("/usr/share/applications/firefox.desktop", FIREFOX_DESKTOP, &heat)
        .expect("a display name is present");
    assert_eq!(e.name, "Firefox");
    assert_eq!(e.exec_cmd, "firefox %u");
    assert_eq!(e.icon_name, "firefox");
    assert_eq!(e.path, "/usr/share/applications/firefox.desktop");
    assert_eq!(e.launch_count, 5);
    assert_eq!(e.entry_type, EntryType::Application);
}

#[test]
fn desktop_entry_without_name_is_skipped() {
    let heat = Heatmap::new();
    let content = "[Desktop Entry]\nExec=foo\n";
    assert!(desktop_entry_from_file("/tmp/foo.desktop", content, &heat).is_none());
}

#[test]
fn desktop_entry_defaults_exec_and_icon() {
    let heat = Heatmap::new();
    let content = "[Desktop Entry]\nName=Bare\n";
    let e = desktop_entry_from_file("/tmp/bare.desktop", content, &heat).unwrap();
    assert_eq!(e.exec_cmd, "");
    assert_eq!(e.icon_name, "application-x-executable");
    assert_eq!(e.launch_count, 0);
}

#[test]
fn attr_is_read_from_named_section_only() {
    let content = "[Other]\nName=Wrong\n[Desktop Entry]\nName=Right\n[Third]\nName=Late\n";
    let v = desktop_attr(content, "Desktop Entry", "Name").unwrap();
    assert_eq!(v, "Right");
    assert!(desktop_attr(content, "Desktop Entry", "Icon").is_none());
}

#[test]
fn desktop_extension_check() {
    assert!(has_desktop_extension("firefox.desktop"));
    assert!(!has_desktop_extension("firefox.png"));
    assert!(!has_desktop_extension("desktop"));
}

#[test]
fn later_directory_overwrites_earlier_descriptor() {
    let heat = Heatmap::new();
    let mut cache = AppCache::new();
    let files = vec![
        DesktopFile {
            file_name: "app.desktop".to_string(),
            path: "/usr/share/applications/app.desktop".to_string(),
            content: "[Desktop Entry]\nName=App\nIcon=system\n".to_string(),
        },
        DesktopFile {
            file_name: "app.desktop".to_string(),
            path: "/home/user/.local/share/applications/app.desktop".to_string(),
            content: "[Desktop Entry]\nName=App\nIcon=user\n".to_string(),
        },
    ];
    scan_desktop_sources(&mut cache, &files, &heat);
    assert_eq!(cache.len(), 1);
    assert_eq!(cache.get("App").unwrap().icon_name, "user");
}

#[test]
fn non_descriptor_files_are_skipped() {
    let heat = Heatmap::new();
    let mut cache = AppCache::new();
    let files = vec![DesktopFile {
        file_name: "readme.txt".to_string(),
        path: "/usr/share/applications/readme.txt".to_string(),
        content: "[Desktop Entry]\nName=NotReally\n".to_string(),
    }];
    scan_desktop_sources(&mut cache, &files, &heat);
    assert_eq!(cache.len(), 0);
}

#[test]
fn path_hit_overwrites_descriptor_entry() {
    let mut heat = Heatmap::new();
    heat.set("firefox", 4);
    let files = vec![DesktopFile {
        file_name: "firefox.desktop".to_string(),
        path: "/usr/share/applications/firefox.desktop".to_string(),
        content: "[Desktop Entry]\nName=firefox\nExec=firefox %u\nIcon=firefox\n".to_string(),
    }];
    let hits = vec![PathHit {
        name: "firefox".to_string(),
        path: "/usr/bin/firefox".to_string(),
        icon_sources: vec![None, None, None],
    }];
    let cache = build_cache(&files, &hits, &heat);
    assert_eq!(cache.len(), 1);
    let e = cache.get("firefox").unwrap();
    // the coarser search-path entry won the collision
    assert_eq!(e.exec_cmd, "/usr/bin/firefox");
    assert_eq!(e.path, "/usr/bin/firefox");
    assert_eq!(e.icon_name, "application-x-executable");
    assert_eq!(e.launch_count, 4);
    assert_eq!(e.entry_type, EntryType::Application);
}

#[test]
fn path_hit_reuses_descriptor_icon() {
    let heat = Heatmap::new();
    let mut cache = AppCache::new();
    let hits = vec![PathHit {
        name: "gimp".to_string(),
        path: "/usr/bin/gimp".to_string(),
        icon_sources: vec![
            None,
            Some("[Desktop Entry]\nName=GIMP\nIcon=gimp-icon\n".to_string()),
            None,
        ],
    }];
    merge_path_results(&mut cache, &hits, &heat);
    assert_eq!(cache.get("gimp").unwrap().icon_name, "gimp-icon");
}

#[test]
fn path_split_keeps_order_and_empty_pieces() {
    let pieces = split_string("/usr/local/bin:/usr/bin::/bin", ':');
    assert_eq!(pieces, vec!["/usr/local/bin", "/usr/bin", "", "/bin"]);
    assert_eq!(split_string("", ':'), vec![""]);
}
