use zen_core::event::Event;
use zen_core::key_bindings::{BindingTable, KeyBinding};

#[test]
fn resolution_matches_modifiers_exactly() {
    let mut table = BindingTable::new();
    table.insert(KeyBinding::new('s', true, false, false, Event::Save));
    table.insert(KeyBinding::new('s', true, true, false, Event::ScanAllFiles));
    assert_eq!(table.resolve('s', true, false, false), Some(Event::Save));
    assert_eq!(table.resolve('s', true, true, false), Some(Event::ScanAllFiles));
}

#[test]
fn earlier_binding_shadows_later_one() {
    let mut table = BindingTable::new();
    table.insert(KeyBinding::new('q', true, false, false, Event::Quit(None)));
    table.insert(KeyBinding::new('q', true, false, false, Event::Save));
    assert_eq!(table.resolve('q', true, false, false), Some(Event::Quit(None)));
}

#[test]
fn no_match_is_no_command() {
    let mut table = BindingTable::new();
    table.insert(KeyBinding::new('s', true, false, false, Event::Save));
    assert_eq!(table.resolve('s', false, false, false), None);
    assert_eq!(table.resolve('x', true, false, false), None);
    assert_eq!(table.resolve('s', true, false, true), None);
}

#[test]
fn command_modifier_counts_as_ctrl() {
    let mut table = BindingTable::new();
    table.insert(KeyBinding::new('o', true, false, false, Event::OpenFile));
    assert_eq!(
        table.resolve_key_release('o', false, true, false, false),
        Some(Event::OpenFile)
    );
    assert_eq!(
        table.resolve_key_release('o', true, false, false, false),
        Some(Event::OpenFile)
    );
    assert_eq!(table.resolve_key_release('o', false, false, false, false), None);
}

#[test]
fn bindings_group_by_trigger_character() {
    let mut table = BindingTable::new();
    table.insert(KeyBinding::new('r', true, false, false, Event::ScanAllFiles));
    table.insert(KeyBinding::new('s', true, false, false, Event::Save));
    table.insert(KeyBinding::new('r', true, true, false, Event::ScanFile(None)));
    assert_eq!(table.resolve('r', true, false, false), Some(Event::ScanAllFiles));
    assert_eq!(table.resolve('r', true, true, false), Some(Event::ScanFile(None)));
    assert_eq!(table.resolve('s', true, false, false), Some(Event::Save));
}

#[test]
fn table_copy_resolves_like_the_original() {
    let mut table = BindingTable::new();
    table.insert(KeyBinding::new('s', true, false, false, Event::Save));
    let copy = table.duplicate();
    assert_eq!(copy, table);
    assert_eq!(copy.resolve('s', true, false, false), Some(Event::Save));
}

#[test]
fn binding_fields_carry_over() {
    let kb = KeyBinding::new('r', true, true, false, Event::ScanFile(None));
    assert_eq!(kb.key, 'r');
    assert!(kb.ctrl);
    assert!(kb.shift);
    assert!(!kb.alt);
    assert_eq!(kb.event, Event::ScanFile(None));
}
