use fuzzle::cache::encode_index;
use fuzzle::delegate::Delegate;
use fuzzle::desktop::lookup_value;
use fuzzle::dirutils::{
    build_cache, searchresult_from_bin, searchresult_from_desktopentry, BinDir, BuildError,
    DescriptorDir, DescriptorFile,
};
use fuzzle::icons::{default_icon_path, IconResolver};
use fuzzle::state::SourceKind;
use fuzzle::strutil::{file_stem, first_token};

const FIREFOX_DESKTOP: &str = "[Desktop Entry]\nName=Firefox\nComment=Browse the web\nIcon=firefox\nExec=/usr/bin/firefox %u\n";

fn descriptor(path: &str, content: &str) -> DescriptorFile {
    DescriptorFile { path: path.to_string(), content: content.to_string() }
}

fn no_themes() -> IconResolver {
    IconResolver::new(vec![])
}

#[test]
fn lookup_value_finds_trimmed_values() {
    let text = "# a comment\n[Other]\nName=Wrong\n[Desktop Entry]\n Name = Firefox \nName=Second\n";
    assert_eq!(lookup_value(text, "Desktop Entry", "Name"), Some("Firefox".to_string()));
    assert_eq!(lookup_value(text, "Other", "Name"), Some("Wrong".to_string()));
    assert_eq!(lookup_value(text, "Desktop Entry", "Comment"), None);
    assert_eq!(lookup_value(text, "Missing", "Name"), None);
}

#[test]
fn lookup_value_ignores_comments_and_blank_lines() {
    let text = "[Desktop Entry]\n\n; Name=Commented\n# Name=Commented\nName=Real\n";
    assert_eq!(lookup_value(text, "Desktop Entry", "Name"), Some("Real".to_string()));
}

#[test]
fn lookup_value_handles_crlf_and_empty_value() {
    let text = "[Desktop Entry]\r\nName=Firefox\r\nIcon=\r\n";
    assert_eq!(lookup_value(text, "Desktop Entry", "Name"), Some("Firefox".to_string()));
    assert_eq!(lookup_value(text, "Desktop Entry", "Icon"), Some("".to_string()));
}

#[test]
fn descriptor_with_all_keys_yields_entry() {
    let mut icons = no_themes();
    let f = descriptor("/usr/share/applications/firefox.desktop", FIREFOX_DESKTOP);
    let e = searchresult_from_desktopentry(&f, &mut icons).expect("complete descriptor");
    assert_eq!(e.name, "Firefox");
    assert_eq!(e.description, "Browse the web");
    assert_eq!(e.command, "/usr/bin/firefox %u");
    assert_eq!(e.path, "/usr/share/applications/firefox.desktop");
    assert_eq!(e.icon_path, Some(default_icon_path()));
    assert_eq!(e.source, SourceKind::DesktopDescriptor);
    assert!(!e.selected);
    assert_eq!(e.score, 0);
    assert!(e.indices.is_empty());
}

#[test]
fn descriptor_missing_any_required_key_yields_nothing() {
    let mut icons = no_themes();
    let complete = [
        "Name=Firefox",
        "Comment=Browse the web",
        "Icon=firefox",
        "Exec=/usr/bin/firefox %u",
    ];
    for skipped in 0..complete.len() {
        let mut text = String::from("[Desktop Entry]\n");
        for (i, line) in complete.iter().enumerate() {
            if i != skipped {
                text.push_str(line);
                text.push('\n');
            }
        }
        let f = descriptor("/a/b.desktop", &text);
        assert!(
            searchresult_from_desktopentry(&f, &mut icons).is_none(),
            "an entry appeared although {} was missing",
            complete[skipped]
        );
    }
}

#[test]
fn descriptor_without_section_or_with_empty_name_yields_nothing() {
    let mut icons = no_themes();
    let no_section = "Name=A\nComment=B\nIcon=C\nExec=D\n";
    assert!(searchresult_from_desktopentry(&descriptor("/p", no_section), &mut icons).is_none());
    let empty_name = "[Desktop Entry]\nName=\nComment=B\nIcon=C\nExec=D\n";
    assert!(searchresult_from_desktopentry(&descriptor("/p", empty_name), &mut icons).is_none());
    let empty_exec = "[Desktop Entry]\nName=A\nComment=B\nIcon=C\nExec=\n";
    assert!(searchresult_from_desktopentry(&descriptor("/p", empty_exec), &mut icons).is_none());
}

#[test]
fn bin_entry_takes_stem_and_full_path() {
    let mut icons = no_themes();
    let e = searchresult_from_bin("/usr/bin/firewall-cmd", &mut icons).expect("a regular file");
    assert_eq!(e.name, "firewall-cmd");
    assert_eq!(e.description, "/usr/bin/firewall-cmd");
    assert_eq!(e.command, "/usr/bin/firewall-cmd");
    assert_eq!(e.path, "/usr/bin/firewall-cmd");
    assert_eq!(e.source, SourceKind::RawExecutable);
    assert_eq!(e.icon_path, Some(default_icon_path()));
    assert!(searchresult_from_bin("/usr/bin/", &mut icons).is_none());
}

#[test]
fn icon_resolution_picks_first_theme_match() {
    let themes = vec![
        vec![
            "/home/user/.icons/mine/48x48/apps/editor.png".to_string(),
            "/home/user/.icons/mine/48x48/apps/firefox.png".to_string(),
        ],
        vec!["/usr/share/icons/hicolor/48x48/apps/firefox.png".to_string()],
    ];
    let mut icons = IconResolver::new(themes);
    assert_eq!(
        icons.search_icon("firefox"),
        Some("/home/user/.icons/mine/48x48/apps/firefox.png".to_string())
    );
    // A second lookup is answered from the memo and must agree.
    assert_eq!(
        icons.search_icon("firefox"),
        Some("/home/user/.icons/mine/48x48/apps/firefox.png".to_string())
    );
    assert_eq!(icons.search_icon("missing-icon-xyz"), None);
    assert_eq!(icons.resolve_or_default("missing-icon-xyz"), default_icon_path());
    assert_eq!(default_icon_path(), "/usr/share/fuzzle/default.png".to_string());
}

#[test]
fn icon_match_is_exact_on_the_stem() {
    let themes = vec![vec!["/t/48x48/firefox-dev.png".to_string()]];
    let mut icons = IconResolver::new(themes);
    assert_eq!(icons.search_icon("firefox"), None);
    assert_eq!(icons.search_icon("Firefox-dev"), None);
    assert_eq!(icons.search_icon("firefox-dev"), Some("/t/48x48/firefox-dev.png".to_string()));
}

#[test]
fn build_cache_orders_descriptors_before_binaries() {
    let ddirs = vec![
        DescriptorDir {
            readable: true,
            files: vec![
                descriptor("/usr/share/applications/firefox.desktop", FIREFOX_DESKTOP),
                descriptor("/usr/share/applications/broken.desktop", "[Desktop Entry]\nName=X\n"),
            ],
        },
        DescriptorDir { readable: false, files: vec![] },
    ];
    let bdirs = vec![
        BinDir { readable: true, files: vec!["/usr/bin/firewall-cmd".to_string()] },
        BinDir { readable: false, files: vec!["/gone/tool".to_string()] },
    ];
    let mut icons = no_themes();
    let index = build_cache(&ddirs, &bdirs, &mut icons).expect("primary directory is readable");
    assert_eq!(index.len(), 2);
    assert_eq!(index[0].name, "Firefox");
    assert_eq!(index[0].source, SourceKind::DesktopDescriptor);
    assert_eq!(index[1].name, "firewall-cmd");
    assert_eq!(index[1].source, SourceKind::RawExecutable);
}

#[test]
fn build_cache_fails_on_unreadable_primary_directory() {
    let ddirs = vec![
        DescriptorDir { readable: false, files: vec![] },
        DescriptorDir { readable: true, files: vec![] },
    ];
    let mut icons = no_themes();
    let r = build_cache(&ddirs, &vec![], &mut icons);
    assert!(matches!(r, Err(BuildError::CannotEnumerateApplications)));
}

#[test]
fn build_cache_of_nothing_is_empty() {
    let mut icons = no_themes();
    let index = build_cache(&vec![], &vec![], &mut icons).expect("no required directory");
    assert!(index.is_empty());
}

#[test]
fn cache_miss_rebuild_and_reload_yield_identical_entries() {
    // A missing cache file: the engine starts empty and a full scan runs.
    let mut d = Delegate::new(None);
    assert!(d.cache.is_empty());
    let ddirs = vec![DescriptorDir {
        readable: true,
        files: vec![descriptor("/usr/share/applications/firefox.desktop", FIREFOX_DESKTOP)],
    }];
    let bdirs = vec![BinDir { readable: true, files: vec!["/usr/bin/firewall-cmd".to_string()] }];
    let mut icons = no_themes();
    let saved = d
        .populate_cache(&ddirs, &bdirs, &mut icons)
        .expect("primary directory is readable")
        .expect("a non-empty index is persisted");
    assert_eq!(saved, encode_index(&d.cache));
    // A simulated restart: loading what was saved restores the same entries.
    let reloaded = Delegate::new(Some(&saved));
    assert_eq!(reloaded.cache.len(), d.cache.len());
    for (a, b) in reloaded.cache.iter().zip(d.cache.iter()) {
        assert_eq!(a.name, b.name);
        assert_eq!(a.description, b.description);
        assert_eq!(a.command, b.command);
        assert_eq!(a.icon_path, b.icon_path);
        assert_eq!(a.path, b.path);
        assert_eq!(a.source, b.source);
    }
}

#[test]
fn populate_cache_returns_no_bytes_for_an_empty_index() {
    let mut d = Delegate::new(None);
    let mut icons = no_themes();
    let saved = d.populate_cache(&vec![], &vec![], &mut icons).expect("nothing required");
    assert!(saved.is_none());
    assert!(d.cache.is_empty());
}

#[test]
fn file_stem_cases() {
    assert_eq!(file_stem("/usr/bin/firewall-cmd"), Some("firewall-cmd".to_string()));
    assert_eq!(file_stem("firefox.desktop"), Some("firefox".to_string()));
    assert_eq!(file_stem("/a/b/archive.tar.gz"), Some("archive.tar".to_string()));
    assert_eq!(file_stem("/home/user/.bashrc"), Some(".bashrc".to_string()));
    assert_eq!(file_stem("trailing."), Some("trailing".to_string()));
    assert_eq!(file_stem("/usr/bin/"), None);
    assert_eq!(file_stem(""), None);
}

#[test]
fn first_token_discards_arguments_and_placeholders() {
    assert_eq!(first_token("/usr/bin/firefox %u"), Some("/usr/bin/firefox".to_string()));
    assert_eq!(first_token("  env FOO=1 run"), Some("env".to_string()));
    assert_eq!(first_token("single"), Some("single".to_string()));
    assert_eq!(first_token("   \t  "), None);
    assert_eq!(first_token(""), None);
}
