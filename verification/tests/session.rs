use zen_core::editor::Editor;
use zen_core::event::{
    Axis, Effect, Event, HighlightTheme, IoRequest, UiTheme,
};
use zen_core::fileinfo::FileInfo;
use zen_core::icons::Icon;
use zen_core::key_bindings::KeyBinding;
use zen_core::top_menu::TopMenu;
use zen_core::zen_core::ZenCore;

fn opened(path: &str, content: &str) -> Event {
    Event::Opened(Some(FileInfo::new(path.to_string(), content.to_string())))
}

#[test]
fn events_reach_only_the_focused_pane() {
    let mut e = Editor::new();
    e.update(&Event::Split(Axis::Horizontal, 0));
    e.update(&opened("right.txt", "beta"));
    e.update(&Event::PaneClicked(0));
    e.update(&opened("left.txt", "alpha"));
    let mut docs: Vec<(usize, String)> = Vec::new();
    collect_docs(&e.panes, &mut docs);
    docs.sort();
    assert_eq!(
        docs,
        vec![(0, "left.txt".to_string()), (1, "right.txt".to_string())]
    );
}

fn collect_docs(t: &zen_core::pane_tree::PaneTree, out: &mut Vec<(usize, String)>) {
    match t {
        zen_core::pane_tree::PaneTree::Leaf(p) => {
            for f in p.core.files.iter() {
                out.push((p.id, f.path.clone()));
            }
        },
        zen_core::pane_tree::PaneTree::Split { left, right, .. } => {
            collect_docs(left, out);
            collect_docs(right, out);
        },
    }
}

#[test]
fn focused_save_asks_to_write_the_active_document() {
    let mut e = Editor::new();
    e.update(&opened("a.txt", "alpha"));
    let effs = e.update(&Event::Save);
    assert_eq!(
        effs,
        vec![Effect::Io(IoRequest::WriteFile {
            path: "a.txt".to_string(),
            content: "alpha".to_string(),
        })]
    );
}

#[test]
fn session_copy_is_equal_in_every_part() {
    let mut e = Editor::new();
    e.add_key_binding(KeyBinding::new('s', true, false, false, Event::Save));
    e.update(&Event::Split(Axis::Horizontal, 0));
    e.update(&opened("a.txt", "alpha"));
    let copy = Editor::new_from(&e);
    assert_eq!(copy.panes, e.panes);
    assert_eq!(copy.focus, e.focus);
    assert_eq!(copy.next_pane_id, e.next_pane_id);
    assert_eq!(copy.next_split_id, e.next_split_id);
    assert_eq!(copy.bindings, e.bindings);
}

#[test]
fn registered_bindings_resolve_from_the_session() {
    let mut e = Editor::new();
    e.add_keys_bindings(vec![
        KeyBinding::new('s', true, false, false, Event::Save),
        KeyBinding::new('q', true, false, false, Event::Quit(None)),
        KeyBinding::new('o', true, false, false, Event::OpenFile),
        KeyBinding::new('r', true, false, false, Event::ScanAllFiles),
        KeyBinding::new('r', true, true, false, Event::ScanFile(None)),
    ]);
    assert_eq!(
        e.resolve_key_release('s', true, false, false, false),
        Some(Event::Save)
    );
    assert_eq!(
        e.resolve_key_release('r', false, true, true, false),
        Some(Event::ScanFile(None))
    );
    assert_eq!(e.resolve_key_release('r', false, false, false, false), None);
    let map = e.get_key_bindings_map();
    assert_eq!(map, e.bindings);
}

#[test]
fn zen_core_routes_events_to_its_components() {
    let mut z = ZenCore::new("Zen".to_string(), UiTheme::Dark);
    let effs = z.update(&opened("a.txt", "alpha"));
    assert_eq!(effs, vec![Effect::Emit(Event::RefreshEditorContent)]);
    let effs = z.update(&Event::Save);
    assert_eq!(
        effs,
        vec![Effect::Io(IoRequest::WriteFile {
            path: "a.txt".to_string(),
            content: "alpha".to_string(),
        })]
    );
}

#[test]
fn theme_change_flips_window_and_menu() {
    let mut z = ZenCore::new("Zen".to_string(), UiTheme::Dracula);
    z.update(&Event::ThemeChanged(HighlightTheme::InspiredGitHub));
    assert_eq!(z.theme(), UiTheme::Light);
    assert_eq!(z.top_menu.theme, HighlightTheme::InspiredGitHub);
    z.update(&Event::ThemeChanged(HighlightTheme::SolarizedDark));
    assert_eq!(z.theme(), UiTheme::Dark);
    assert_eq!(z.top_menu.theme, HighlightTheme::SolarizedDark);
}

#[test]
fn empty_event_does_nothing() {
    let mut z = ZenCore::new("Zen".to_string(), UiTheme::Dark);
    let effs = z.update(&Event::Nothing);
    assert_eq!(effs, vec![]);
    assert_eq!(z.theme(), UiTheme::Dark);
}

#[test]
fn zen_core_composes_given_components() {
    let mut e = Editor::new();
    e.add_key_binding(KeyBinding::new('s', true, false, false, Event::Save));
    let z = ZenCore::new_with("My editor".to_string(), UiTheme::Light, TopMenu::new(), e);
    assert_eq!(z.title(), "My editor");
    assert_eq!(z.theme(), UiTheme::Light);
}

#[test]
fn menu_remembers_only_palette_changes() {
    let mut m = TopMenu::new();
    assert_eq!(m.theme, HighlightTheme::Base16Ocean);
    let effs = m.update(&Event::Save);
    assert_eq!(effs, vec![]);
    assert_eq!(m.theme, HighlightTheme::Base16Ocean);
    m.update(&Event::ThemeChanged(HighlightTheme::Base16Mocha));
    assert_eq!(m.theme, HighlightTheme::Base16Mocha);
}

#[test]
fn palettes_know_their_brightness() {
    assert!(HighlightTheme::SolarizedDark.is_dark());
    assert!(HighlightTheme::Base16Mocha.is_dark());
    assert!(HighlightTheme::Base16Ocean.is_dark());
    assert!(HighlightTheme::Base16Eighties.is_dark());
    assert!(!HighlightTheme::InspiredGitHub.is_dark());
}

#[test]
fn icons_map_to_their_code_points() {
    assert_eq!(char::from(Icon::File), '\u{e800}');
    assert_eq!(char::from(Icon::Save), '\u{e801}');
    assert_eq!(char::from(Icon::Refresh), '\u{e802}');
    assert_eq!(char::from(Icon::HorizontalSplit), '\u{e803}');
    assert_eq!(char::from(Icon::VerticalSplit), '\u{e804}');
    assert_eq!(char::from(Icon::Close), '\u{e805}');
    assert_eq!(char::from(Icon::Pin), '\u{e806}');
    assert_eq!(char::from(Icon::Unpin), '\u{e807}');
}

#[test]
fn opened_document_carries_its_fields() {
    let f = FileInfo::new("a.txt".to_string(), "alpha".to_string());
    assert_eq!(f.path, "a.txt");
    assert_eq!(f.content, "alpha");
    let copy = f.duplicate();
    assert_eq!(copy, f);
}

#[test]
fn maximize_and_restore_change_no_registry() {
    let mut e = Editor::new();
    e.update(&opened("a.txt", "alpha"));
    let effs = e.update(&Event::Maximize(0));
    assert_eq!(effs, vec![]);
    let effs = e.update(&Event::Restore);
    assert_eq!(effs, vec![]);
    match &e.panes {
        zen_core::pane_tree::PaneTree::Leaf(p) => assert_eq!(p.core.files.len(), 1),
        _ => panic!("expected a leaf"),
    }
}

#[test]
fn without_focus_events_reach_every_pane() {
    let mut e = Editor::new();
    e.update(&Event::Split(Axis::Horizontal, 0));
    e.focus = None;
    e.update(&opened("shared.txt", "same"));
    let mut docs: Vec<(usize, String)> = Vec::new();
    collect_docs(&e.panes, &mut docs);
    docs.sort();
    assert_eq!(
        docs,
        vec![(0, "shared.txt".to_string()), (1, "shared.txt".to_string())]
    );
}
