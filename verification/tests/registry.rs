use zen_core::editor_core::EditorCore;
use zen_core::event::{Effect, Event, HighlightTheme, IoRequest};
use zen_core::fileinfo::FileInfo;

fn opened(path: &str, content: &str) -> Event {
    Event::Opened(Some(FileInfo::new(path.to_string(), content.to_string())))
}

#[test]
fn open_always_activates_last() {
    let mut core = EditorCore::new();
    for (i, name) in ["a.txt", "b.txt", "c.txt", "d.txt"].iter().enumerate() {
        core.update(&opened(name, "text"));
        assert_eq!(core.files.len(), i + 1);
        assert_eq!(core.active_file, core.files.len() - 1);
    }
}

#[test]
fn open_emits_refresh() {
    let mut core = EditorCore::new();
    let effs = core.update(&opened("a.txt", "alpha"));
    assert_eq!(effs, vec![Effect::Emit(Event::RefreshEditorContent)]);
    assert_eq!(core.files[0].path, "a.txt");
    assert_eq!(core.files[0].content, "alpha");
}

#[test]
fn close_recenters_per_rule() {
    let mut core = EditorCore::new();
    core.update(&opened("A.txt", "a"));
    core.update(&opened("B.txt", "b"));
    core.update(&opened("C.txt", "c"));
    core.active_file = 1;
    let removed = core.quit_file(1);
    assert_eq!(removed, Some("B.txt".to_string()));
    assert_eq!(core.files.len(), 2);
    assert_eq!(core.files[0].path, "A.txt");
    assert_eq!(core.files[1].path, "C.txt");
    assert_eq!(core.active_file, 0);
}

#[test]
fn close_past_midpoint_selects_last() {
    let mut core = EditorCore::new();
    core.update(&opened("A.txt", "a"));
    core.update(&opened("B.txt", "b"));
    core.update(&opened("C.txt", "c"));
    core.update(&opened("D.txt", "d"));
    let removed = core.quit_file(3);
    assert_eq!(removed, Some("D.txt".to_string()));
    assert_eq!(core.active_file, 2);
}

#[test]
fn close_always_leaves_valid_active_index() {
    for victim in 0..5 {
        let mut core = EditorCore::new();
        for name in ["a", "b", "c", "d", "e"] {
            core.update(&opened(name, "x"));
        }
        core.quit_file(victim);
        assert!(core.files.is_empty() || core.active_file < core.files.len());
    }
}

#[test]
fn close_on_empty_registry_is_noop() {
    let mut core = EditorCore::new();
    assert_eq!(core.quit_file(0), None);
    assert!(core.files.is_empty());
}

#[test]
fn close_out_of_bounds_is_noop() {
    let mut core = EditorCore::new();
    core.update(&opened("a.txt", "a"));
    assert_eq!(core.quit_file(5), None);
    assert_eq!(core.files.len(), 1);
}

#[test]
fn quit_event_flows_through_quited() {
    let mut core = EditorCore::new();
    core.update(&opened("a.txt", "alpha"));
    let effs = core.update(&Event::Quit(None));
    assert_eq!(effs, vec![Effect::Emit(Event::Quited("a.txt".to_string()))]);
    assert_eq!(core.files.len(), 1);
    let effs = core.update(&Event::Quited("a.txt".to_string()));
    assert_eq!(effs, vec![Effect::Emit(Event::RefreshEditorContent)]);
    assert!(core.files.is_empty());
}

#[test]
fn quit_on_empty_registry_asks_for_refresh() {
    let mut core = EditorCore::new();
    let effs = core.update(&Event::Quit(None));
    assert_eq!(effs, vec![Effect::Emit(Event::RefreshEditorContent)]);
}

#[test]
fn quited_with_unknown_path_removes_nothing() {
    let mut core = EditorCore::new();
    core.update(&opened("a.txt", "alpha"));
    core.update(&Event::Quited("other.txt".to_string()));
    assert_eq!(core.files.len(), 1);
}

#[test]
fn save_requests_write_of_active_document() {
    let mut core = EditorCore::new();
    core.update(&opened("a.txt", "alpha"));
    core.update(&opened("b.txt", "beta"));
    let effs = core.update(&Event::Save);
    assert_eq!(
        effs,
        vec![Effect::Io(IoRequest::WriteFile {
            path: "b.txt".to_string(),
            content: "beta".to_string(),
        })]
    );
}

#[test]
fn save_on_empty_registry_is_noop() {
    let mut core = EditorCore::new();
    assert_eq!(core.update(&Event::Save), vec![]);
}

#[test]
fn edit_mirrors_text_into_active_document() {
    let mut core = EditorCore::new();
    core.update(&opened("a.txt", "alpha"));
    core.update(&Event::EditorAction("alpha beta".to_string()));
    assert_eq!(core.files[0].content, "alpha beta");
    assert_eq!(core.content, "alpha beta");
}

#[test]
fn edit_on_empty_registry_is_noop() {
    let mut core = EditorCore::new();
    core.update(&Event::EditorAction("text".to_string()));
    assert_eq!(core.content, "");
}

#[test]
fn refresh_shows_active_document() {
    let mut core = EditorCore::new();
    core.update(&opened("a.txt", "alpha"));
    core.update(&opened("b.txt", "beta"));
    core.update(&Event::TabSelected(0));
    core.update(&Event::RefreshEditorContent);
    assert_eq!(core.content, "alpha");
}

#[test]
fn select_out_of_bounds_is_noop() {
    let mut core = EditorCore::new();
    core.update(&opened("a.txt", "alpha"));
    let effs = core.update(&Event::TabSelected(7));
    assert_eq!(effs, vec![]);
    assert_eq!(core.active_file, 0);
}

#[test]
fn tab_closed_turns_into_quit() {
    let mut core = EditorCore::new();
    let effs = core.update(&Event::TabClosed(2));
    assert_eq!(effs, vec![Effect::Emit(Event::Quit(Some(2)))]);
}

#[test]
fn new_tab_turns_into_open() {
    let mut core = EditorCore::new();
    let effs = core.update(&Event::NewTab);
    assert_eq!(effs, vec![Effect::Emit(Event::OpenFile)]);
}

#[test]
fn open_file_requests_picker() {
    let mut core = EditorCore::new();
    let effs = core.update(&Event::OpenFile);
    assert_eq!(effs, vec![Effect::Io(IoRequest::PickOpen)]);
}

#[test]
fn reload_one_requests_read_and_applies_answer() {
    let mut core = EditorCore::new();
    core.update(&opened("a.txt", "old"));
    let effs = core.update(&Event::ScanFile(None));
    assert_eq!(effs, vec![Effect::Io(IoRequest::ReadFile { path: "a.txt".to_string() })]);
    let effs = core.update(&Event::Scanned("a.txt".to_string(), "fresh".to_string()));
    assert_eq!(effs, vec![Effect::Emit(Event::RefreshEditorContent)]);
    assert_eq!(core.files[0].content, "fresh");
}

#[test]
fn reload_of_inactive_document_needs_no_refresh() {
    let mut core = EditorCore::new();
    core.update(&opened("a.txt", "old"));
    core.update(&opened("b.txt", "other"));
    let effs = core.update(&Event::Scanned("a.txt".to_string(), "fresh".to_string()));
    assert_eq!(effs, vec![]);
    assert_eq!(core.files[0].content, "fresh");
}

#[test]
fn reload_answer_for_unknown_path_is_noop() {
    let mut core = EditorCore::new();
    core.update(&opened("a.txt", "old"));
    let effs = core.update(&Event::Scanned("z.txt".to_string(), "zzz".to_string()));
    assert_eq!(effs, vec![]);
    assert_eq!(core.files[0].content, "old");
}

#[test]
fn reload_all_lists_every_path() {
    let mut core = EditorCore::new();
    core.update(&opened("a.txt", "a"));
    core.update(&opened("b.txt", "b"));
    let effs = core.update(&Event::ScanAllFiles);
    assert_eq!(
        effs,
        vec![Effect::Io(IoRequest::ReadAll {
            paths: vec!["a.txt".to_string(), "b.txt".to_string()],
        })]
    );
}

#[test]
fn reload_all_twice_is_idempotent() {
    let mut core = EditorCore::new();
    core.update(&opened("a.txt", "stale"));
    core.update(&opened("b.txt", "stale too"));
    let answers = vec![
        ("a.txt".to_string(), "disk a".to_string()),
        ("b.txt".to_string(), "disk b".to_string()),
    ];
    core.update(&Event::ScannedAll(answers.clone()));
    let first: Vec<String> = core.files.iter().map(|f| f.content.clone()).collect();
    core.update(&Event::ScannedAll(answers));
    let second: Vec<String> = core.files.iter().map(|f| f.content.clone()).collect();
    assert_eq!(first, vec!["disk a".to_string(), "disk b".to_string()]);
    assert_eq!(first, second);
}

#[test]
fn reload_all_skips_files_without_answer() {
    let mut core = EditorCore::new();
    core.update(&opened("a.txt", "kept"));
    core.update(&opened("b.txt", "stale"));
    let effs = core.update(&Event::ScannedAll(vec![(
        "b.txt".to_string(),
        "disk b".to_string(),
    )]));
    assert_eq!(effs, vec![Effect::Emit(Event::RefreshEditorContent)]);
    assert_eq!(core.files[0].content, "kept");
    assert_eq!(core.files[1].content, "disk b");
}

#[test]
fn io_failure_leaves_state_untouched() {
    let mut core = EditorCore::new();
    core.update(&opened("a.txt", "alpha"));
    let effs = core.update(&Event::IoFailed("a.txt".to_string()));
    assert_eq!(effs, vec![]);
    assert_eq!(core.files[0].content, "alpha");
}

#[test]
fn theme_change_is_remembered() {
    let mut core = EditorCore::new();
    core.update(&Event::ThemeChanged(HighlightTheme::SolarizedDark));
    assert_eq!(core.theme, HighlightTheme::SolarizedDark);
}

#[test]
fn registry_copy_is_equal() {
    let mut core = EditorCore::new();
    core.update(&opened("a.txt", "alpha"));
    let copy = EditorCore::new_from(&core);
    assert_eq!(copy, core);
    assert_eq!(copy.get_content(), core.get_content());
}

#[test]
fn quit_with_out_of_bounds_index_is_noop() {
    let mut core = EditorCore::new();
    core.update(&opened("a.txt", "alpha"));
    let effs = core.update(&Event::Quit(Some(9)));
    assert_eq!(effs, vec![]);
    assert_eq!(core.files.len(), 1);
}

#[test]
fn copy_overwrites_the_whole_registry() {
    let mut src = EditorCore::new();
    src.update(&opened("a.txt", "alpha"));
    let mut dst = EditorCore::new();
    dst.update(&opened("b.txt", "beta"));
    dst.copy(&src);
    assert_eq!(dst, src);
}
