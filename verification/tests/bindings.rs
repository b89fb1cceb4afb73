//! Tests for the binding-table builder.

use wm_config::actions::{Action, ClientOp, MouseAction};
use wm_config::bindings::{
    build_key_table, build_mouse_table, lookup_key_code, parse_trigger_exec, BindError,
    BindFailure, KeyMapping, KeyTrigger, ModSet, Modifier, MouseButton, MouseTrigger, RawBinding,
    RawMouseBinding,
};
use wm_config::defaults::{default_workspace_tags, raw_key_bindings};

fn keymap(pairs: &[(&str, u8)]) -> Vec<KeyMapping> {
    pairs
        .iter()
        .map(|(name, code)| KeyMapping { name: name.to_string(), code: *code })
        .collect()
}

fn entry(trigger: &str, action: Action) -> RawBinding {
    RawBinding { trigger: trigger.to_string(), action }
}

fn tags(names: &[&str]) -> Vec<String> {
    names.iter().map(|n| n.to_string()).collect()
}

fn spawn(cmd: &str) -> Action {
    Action::Spawn(cmd.to_string())
}

const META: ModSet = ModSet { meta: true, shift: false };
const META_SHIFT: ModSet = ModSet { meta: true, shift: true };

#[test]
fn generated_entries_two_per_tag() {
    let km = keymap(&[("a", 1), ("b", 2)]);
    let table = build_key_table(Vec::new(), &tags(&["a", "b"]), &km).unwrap();
    assert_eq!(table.len(), 4);
    assert_eq!(
        table.lookup(KeyTrigger { mods: META, code: 1 }),
        Some(&Action::Modify(ClientOp::FocusTag("a".to_string())))
    );
    assert_eq!(
        table.lookup(KeyTrigger { mods: META_SHIFT, code: 1 }),
        Some(&Action::Modify(ClientOp::MoveFocusedToTag("a".to_string())))
    );
    assert_eq!(
        table.lookup(KeyTrigger { mods: META, code: 2 }),
        Some(&Action::Modify(ClientOp::FocusTag("b".to_string())))
    );
    assert_eq!(
        table.lookup(KeyTrigger { mods: META_SHIFT, code: 2 }),
        Some(&Action::Modify(ClientOp::MoveFocusedToTag("b".to_string())))
    );
}

#[test]
fn three_tags_yield_exactly_six_entries() {
    let km = keymap(&[("1", 10), ("2", 11), ("3", 12)]);
    let table = build_key_table(Vec::new(), &tags(&["1", "2", "3"]), &km).unwrap();
    assert_eq!(table.len(), 6);
    let expected = [
        (META, 10, ClientOp::FocusTag("1".to_string())),
        (META_SHIFT, 10, ClientOp::MoveFocusedToTag("1".to_string())),
        (META, 11, ClientOp::FocusTag("2".to_string())),
        (META_SHIFT, 11, ClientOp::MoveFocusedToTag("2".to_string())),
        (META, 12, ClientOp::FocusTag("3".to_string())),
        (META_SHIFT, 12, ClientOp::MoveFocusedToTag("3".to_string())),
    ];
    for (i, (mods, code, op)) in expected.iter().enumerate() {
        assert_eq!(table.trigger_at(i), KeyTrigger { mods: *mods, code: *code });
        assert_eq!(table.action_at(i), &Action::Modify(op.clone()));
    }
}

#[test]
fn duplicate_trigger_last_write_wins() {
    let km = keymap(&[("a", 1), ("1", 2)]);
    let literals = vec![entry("M-a", spawn("first")), entry("M-a", spawn("second"))];
    let table = build_key_table(literals, &tags(&["1"]), &km).unwrap();
    assert_eq!(table.len(), 3);
    assert_eq!(table.lookup(KeyTrigger { mods: META, code: 1 }), Some(&spawn("second")));
}

#[test]
fn literal_overwritten_by_generated_family() {
    // The generated per-tag entries come after the literals, so a literal
    // using a generated trigger string is overwritten.
    let km = keymap(&[("1", 7)]);
    let literals = vec![entry("M-1", spawn("never"))];
    let table = build_key_table(literals, &tags(&["1"]), &km).unwrap();
    assert_eq!(table.len(), 2);
    assert_eq!(
        table.lookup(KeyTrigger { mods: META, code: 7 }),
        Some(&Action::Modify(ClientOp::FocusTag("1".to_string())))
    );
}

#[test]
fn resolution_failures_are_aggregated() {
    let km = keymap(&[("1", 9)]);
    let literals = vec![
        entry("M-missing", spawn("x")),
        entry("M-1", spawn("fine")),
        entry("M-S-", spawn("y")),
        entry("M-alsomissing", spawn("z")),
    ];
    let err = build_key_table(literals, &tags(&["1"]), &km).unwrap_err();
    match err {
        BindError::Unresolved { failures } => {
            assert_eq!(failures.len(), 3);
            assert_eq!(
                failures[0],
                BindFailure::UnknownKey {
                    trigger: "M-missing".to_string(),
                    key_name: "missing".to_string(),
                }
            );
            assert_eq!(failures[1], BindFailure::BadGrammar { trigger: "M-S-".to_string() });
            assert_eq!(
                failures[2],
                BindFailure::UnknownKey {
                    trigger: "M-alsomissing".to_string(),
                    key_name: "alsomissing".to_string(),
                }
            );
        }
        other => panic!("expected aggregated resolution failures, got {other:?}"),
    }
}

#[test]
fn empty_tag_list_is_rejected() {
    let km = keymap(&[("a", 1)]);
    let err = build_key_table(vec![entry("M-a", spawn("x"))], &Vec::new(), &km).unwrap_err();
    assert_eq!(err, BindError::EmptyTags);
}

#[test]
fn colliding_resolutions_are_rejected() {
    // Two distinct key names that the host maps to the same key code must
    // fail loudly instead of silently shadowing one binding.
    let km = keymap(&[("a", 5), ("b", 5), ("1", 9)]);
    let literals = vec![entry("M-a", spawn("x")), entry("M-b", spawn("y"))];
    let err = build_key_table(literals, &tags(&["1"]), &km).unwrap_err();
    match err {
        BindError::Ambiguous { conflicts } => {
            assert_eq!(conflicts, vec![("M-a".to_string(), "M-b".to_string())]);
        }
        other => panic!("expected an ambiguity error, got {other:?}"),
    }
}

#[test]
fn building_twice_yields_identical_tables() {
    let km = keymap(&[("a", 1), ("b", 2), ("1", 3), ("2", 4)]);
    let literals = || vec![entry("M-a", spawn("x")), entry("S-b", spawn("y"))];
    let first = build_key_table(literals(), &tags(&["1", "2"]), &km).unwrap();
    let second = build_key_table(literals(), &tags(&["1", "2"]), &km).unwrap();
    assert_eq!(first, second);
}

#[test]
fn modifier_prefixes_parse() {
    assert_eq!(
        parse_trigger_exec(&"M-S-Return".to_string()),
        Some((META_SHIFT, "Return".to_string()))
    );
    assert_eq!(
        parse_trigger_exec(&"M-space".to_string()),
        Some((META, "space".to_string()))
    );
    assert_eq!(
        parse_trigger_exec(&"S-a".to_string()),
        Some((ModSet { meta: false, shift: true }, "a".to_string()))
    );
    assert_eq!(
        parse_trigger_exec(&"XF86AudioMute".to_string()),
        Some((ModSet { meta: false, shift: false }, "XF86AudioMute".to_string()))
    );
    assert_eq!(parse_trigger_exec(&"M-".to_string()), None);
    assert_eq!(parse_trigger_exec(&"M-S-".to_string()), None);
    assert_eq!(parse_trigger_exec(&"".to_string()), None);
}

#[test]
fn keymap_lookup_first_match_wins() {
    let km = keymap(&[("a", 1), ("a", 2), ("b", 3)]);
    assert_eq!(lookup_key_code(&km, &"a".to_string()), Some(1));
    assert_eq!(lookup_key_code(&km, &"b".to_string()), Some(3));
    assert_eq!(lookup_key_code(&km, &"c".to_string()), None);
}

#[test]
fn default_bindings_resolve_against_complete_keymap() {
    let names = [
        "XF86MonBrightnessUp",
        "XF86MonBrightnessDown",
        "XF86AudioRaiseVolume",
        "XF86AudioLowerVolume",
        "XF86AudioMute",
        "XF86AudioMicMute",
        "Print",
        "u",
        "o",
        "l",
        "j",
        "c",
        "Tab",
        "w",
        "e",
        "space",
        "i",
        "k",
        "p",
        "Return",
        "d",
        "F7",
        "q",
        "f",
        "t",
        "1",
        "2",
        "3",
        "4",
        "5",
        "6",
        "7",
        "8",
        "9",
    ];
    let km: Vec<KeyMapping> = names
        .iter()
        .enumerate()
        .map(|(i, name)| KeyMapping { name: name.to_string(), code: 8 + i as u8 })
        .collect();
    let table = build_key_table(raw_key_bindings(), &default_workspace_tags(), &km).unwrap();
    // 32 distinct literal triggers plus two generated entries per tag.
    assert_eq!(table.len(), 32 + 18);
    // The media keys carry no modifier prefix.
    assert_eq!(
        table.lookup(KeyTrigger { mods: ModSet { meta: false, shift: false }, code: 8 }),
        Some(&spawn("xbacklight +5"))
    );
    assert_eq!(
        table.lookup(KeyTrigger { mods: META, code: 8 + 25 }),
        Some(&Action::Modify(ClientOp::FocusTag("1".to_string())))
    );
}

#[test]
fn default_bindings_fail_without_media_keys() {
    // A keymap that lacks the raw keysym names reported for media keys
    // must surface every missing name, not just the first.
    let km = keymap(&[("1", 1)]);
    let err = build_key_table(raw_key_bindings(), &tags(&["1"]), &km).unwrap_err();
    match err {
        BindError::Unresolved { failures } => {
            assert!(failures.len() > 1);
        }
        other => panic!("expected aggregated resolution failures, got {other:?}"),
    }
}

#[test]
fn mouse_modifier_order_is_irrelevant() {
    let bindings = vec![
        RawMouseBinding {
            button: MouseButton::Left,
            modifiers: vec![Modifier::Shift, Modifier::Meta],
            action: MouseAction::DragFloating,
        },
        RawMouseBinding {
            button: MouseButton::Left,
            modifiers: vec![Modifier::Meta, Modifier::Shift],
            action: MouseAction::ResizeFloating,
        },
    ];
    let table = build_mouse_table(bindings);
    assert_eq!(table.len(), 1);
    assert_eq!(
        table.lookup(MouseTrigger { button: MouseButton::Left, mods: META_SHIFT }),
        Some(MouseAction::ResizeFloating)
    );
}

#[test]
fn mouse_table_keeps_distinct_chords() {
    let bindings = vec![
        RawMouseBinding {
            button: MouseButton::Left,
            modifiers: vec![Modifier::Meta],
            action: MouseAction::DragFloating,
        },
        RawMouseBinding {
            button: MouseButton::Right,
            modifiers: vec![Modifier::Meta],
            action: MouseAction::ResizeFloating,
        },
    ];
    let table = build_mouse_table(bindings);
    assert_eq!(table.len(), 2);
    assert_eq!(
        table.entry_at(0),
        (
            MouseTrigger { button: MouseButton::Left, mods: META },
            MouseAction::DragFloating
        )
    );
    assert_eq!(
        table.lookup(MouseTrigger { button: MouseButton::Right, mods: META }),
        Some(MouseAction::ResizeFloating)
    );
    assert_eq!(
        table.lookup(MouseTrigger { button: MouseButton::Middle, mods: META }),
        None
    );
}
