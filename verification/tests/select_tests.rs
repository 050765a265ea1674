//! Tests for the selectable-prototype registry and the play-mode enum.

use minimum::select::RegisteredComponentPrototype;
use minimum::select::SelectRegistry;
use minimum::PlayMode;

struct BoxPrototype;
struct CirclePrototype;

/// Kind ids the test assigns to its prototype types.
const BOX_KIND: u64 = 10;
const CIRCLE_KIND: u64 = 11;
const UNKNOWN_KIND: u64 = 99;

#[test]
fn test_select_registry_lookup() {
    let mut registry = SelectRegistry::new();
    registry.register_component_prototype(
        BOX_KIND,
        RegisteredComponentPrototype::<BoxPrototype>::new(),
    );
    registry.register_component_prototype(
        CIRCLE_KIND,
        RegisteredComponentPrototype::<CirclePrototype>::new(),
    );

    // Each registered kind resolves to its registration slot; an unknown
    // kind resolves to nothing rather than crashing.
    assert_eq!(registry.create_selection_shape(BOX_KIND), Some(0));
    assert_eq!(registry.create_selection_shape(CIRCLE_KIND), Some(1));
    assert_eq!(registry.create_selection_shape(UNKNOWN_KIND), None);
}

#[test]
fn test_play_mode_values_distinct() {
    assert_eq!(PlayMode::System, PlayMode::System);
    assert_ne!(PlayMode::System, PlayMode::Paused);
    assert_ne!(PlayMode::Paused, PlayMode::Playing);
}
