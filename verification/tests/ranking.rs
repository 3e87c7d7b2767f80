use fuzzle::delegate::{Delegate, KeyAction, Reaction};
use fuzzle::select::{cursor_next, cursor_prev, window};
use fuzzle::state::{AppState, SearchResult, SourceKind};

fn entry(name: &str, command: &str, path: &str, source: SourceKind) -> SearchResult {
    SearchResult {
        icon_path: None,
        path: path.to_string(),
        name: name.to_string(),
        description: name.to_string(),
        command: command.to_string(),
        source,
        selected: false,
        score: 0,
        indices: vec![],
    }
}

fn firefox() -> SearchResult {
    entry(
        "Firefox",
        "/usr/bin/firefox %u",
        "/usr/share/applications/firefox.desktop",
        SourceKind::DesktopDescriptor,
    )
}

fn firewall() -> SearchResult {
    entry(
        "firewall-cmd",
        "/usr/bin/firewall-cmd",
        "/usr/bin/firewall-cmd",
        SourceKind::RawExecutable,
    )
}

fn state() -> AppState {
    AppState::new()
}

#[test]
fn query_fire_matches_both_and_bias_puts_the_descriptor_first() {
    let d = Delegate { cache: vec![firewall(), firefox()] };
    let mut s = state();
    s.input_text = "fire".to_string();
    let (total, visible) = d.search(&s);
    assert_eq!(total, 2);
    assert_eq!(visible.len(), 2);
    assert_eq!(visible[0].name, "Firefox");
    assert_eq!(visible[1].name, "firewall-cmd");
    assert!(visible[0].score > visible[1].score);
    assert!(visible[0].selected);
    assert!(!visible[1].selected);
    assert!(!visible[0].indices.is_empty());
}

#[test]
fn bias_orders_identical_searchable_text_by_provenance() {
    // Two entries with one searchable text; only provenance differs.
    let a = entry("tool", "/usr/bin/tool", "/usr/bin/tool", SourceKind::RawExecutable);
    let b = entry("tool", "/opt/x/tool", "/opt/x/tool", SourceKind::DesktopDescriptor);
    let d = Delegate { cache: vec![a, b] };
    let mut s = state();
    s.input_text = "tool".to_string();
    let (total, visible) = d.search(&s);
    assert_eq!(total, 2);
    assert_eq!(visible[0].source, SourceKind::DesktopDescriptor);
    assert_eq!(visible[1].source, SourceKind::RawExecutable);
    // Equal raw scores on one searchable text: the bias is exactly the
    // fixed constant.
    assert_eq!(visible[0].score, visible[1].score + 1000);
}

#[test]
fn entries_without_the_query_subsequence_are_absent() {
    let d = Delegate { cache: vec![firefox(), firewall()] };
    let mut s = state();
    s.input_text = "xqz".to_string();
    let (total, visible) = d.search(&s);
    assert_eq!(total, 0);
    assert!(visible.is_empty());
    // The matcher's own documented example: "abx" is no subsequence of "abc".
    let d = Delegate { cache: vec![entry("abc", "/bin/abc", "/bin/abc", SourceKind::RawExecutable)] };
    s.input_text = "abx".to_string();
    let (total, _) = d.search(&s);
    assert_eq!(total, 0);
}

#[test]
fn empty_query_matches_every_entry() {
    let d = Delegate { cache: vec![firefox(), firewall()] };
    let s = state();
    let (total, visible) = d.search(&s);
    assert_eq!(total, 2);
    assert_eq!(visible.len(), 2);
}

#[test]
fn equal_scores_keep_scan_order() {
    // Identical entries score identically; the stable sort keeps scan order.
    let mk = |p: &str| entry("same", p, "/usr/bin/same", SourceKind::RawExecutable);
    let d = Delegate { cache: vec![mk("/bin/first"), mk("/bin/second"), mk("/bin/third")] };
    let mut s = state();
    s.input_text = "same".to_string();
    let (total, visible) = d.search(&s);
    assert_eq!(total, 3);
    assert_eq!(visible[0].command, "/bin/first");
    assert_eq!(visible[1].command, "/bin/second");
    assert_eq!(visible[2].command, "/bin/third");
}

fn five_ranked() -> Vec<SearchResult> {
    let mut v = Vec::new();
    for (i, name) in ["a", "b", "c", "d", "e"].iter().enumerate() {
        let mut e = entry(name, "/bin/x", "/bin/x", SourceKind::RawExecutable);
        e.score = 100 - (i as i64);
        v.push(e);
    }
    v
}

#[test]
fn window_holds_three_entries_and_the_cursor() {
    let ranked = five_ranked();
    for cursor in 0..5usize {
        let w = window(&ranked, cursor);
        assert_eq!(w.len(), 3, "window length at cursor {}", cursor);
        let selected: Vec<&SearchResult> = w.iter().filter(|e| e.selected).collect();
        assert_eq!(selected.len(), 1);
        assert_eq!(selected[0].name, ranked[cursor].name);
    }
    // The cursor's own entry stays visible with one entry above it shown.
    let w = window(&ranked, 2);
    assert_eq!(w[0].name, "b");
    assert_eq!(w[1].name, "c");
    assert_eq!(w[2].name, "d");
    assert!(w[1].selected);
}

#[test]
fn window_of_a_short_list_shows_everything() {
    let ranked = vec![firefox()];
    let w = window(&ranked, 0);
    assert_eq!(w.len(), 1);
    assert!(w[0].selected);
    let empty: Vec<SearchResult> = vec![];
    assert!(window(&empty, 0).is_empty());
    assert!(window(&empty, 7).is_empty());
}

#[test]
fn cursor_saturates_at_both_ends() {
    assert_eq!(cursor_prev(0), 0);
    assert_eq!(cursor_prev(3), 2);
    assert_eq!(cursor_next(0, 5), 1);
    assert_eq!(cursor_next(4, 5), 4);
    assert_eq!(cursor_next(0, 1), 0);
    assert_eq!(cursor_next(9, 0), 9);
}

#[test]
fn text_change_resets_the_cursor() {
    let mut s = state();
    s.selected_line = 3;
    s.update_input("fire".to_string());
    assert_eq!(s.selected_line, 0);
    assert_eq!(s.input_text, "fire");
}

#[test]
fn event_flow_moves_selects_and_launches() {
    let d = Delegate { cache: vec![firewall(), firefox()] };
    let mut s = state();

    let r = d.event(KeyAction::TextInput("fire".to_string()), &mut s);
    assert!(matches!(r, Reaction::Continue));
    assert_eq!(s.selected_line, 0);
    assert_eq!(s.search_results.len(), 2);
    assert_eq!(s.search_results[0].name, "Firefox");
    assert!(s.search_results[0].selected);

    let r = d.event(KeyAction::Next, &mut s);
    assert!(matches!(r, Reaction::Continue));
    assert_eq!(s.selected_line, 1);
    assert!(s.search_results[1].selected);

    // At the last entry, another step down stays put.
    let r = d.event(KeyAction::Next, &mut s);
    assert!(matches!(r, Reaction::Continue));
    assert_eq!(s.selected_line, 1);

    // The selected entry launches by its command's first token only.
    let r = d.event(KeyAction::Activate, &mut s);
    match r {
        Reaction::Launch(cmd) => assert_eq!(cmd, "/usr/bin/firewall-cmd"),
        _ => panic!("activation must launch the selected entry"),
    }

    let r = d.event(KeyAction::Previous, &mut s);
    assert!(matches!(r, Reaction::Continue));
    assert_eq!(s.selected_line, 0);
    let r = d.event(KeyAction::Previous, &mut s);
    assert!(matches!(r, Reaction::Continue));
    assert_eq!(s.selected_line, 0);

    let r = d.event(KeyAction::Activate, &mut s);
    match r {
        Reaction::Launch(cmd) => assert_eq!(cmd, "/usr/bin/firefox"),
        _ => panic!("activation must launch the selected entry"),
    }

    // New text resets the cursor before the next window is computed.
    let r = d.event(KeyAction::TextInput("firew".to_string()), &mut s);
    assert!(matches!(r, Reaction::Continue));
    assert_eq!(s.selected_line, 0);

    let r = d.event(KeyAction::Escape, &mut s);
    assert!(matches!(r, Reaction::Quit));
}

#[test]
fn activation_with_no_matches_keeps_running() {
    let d = Delegate { cache: vec![firefox()] };
    let mut s = state();
    s.input_text = "zzzz".to_string();
    let r = d.event(KeyAction::Activate, &mut s);
    assert!(matches!(r, Reaction::Continue));
    assert!(s.search_results.is_empty());
}
