use cuberef_game_state::constants::{
    default_item_interaction_rules, DigBehavior, AIR, DEFAULT_LIQUID, DEFAULT_SOLID,
    FALLBACK_UNKNOWN_TEXTURE, NOT_DIGGABLE, ONE, TOOL_REQUIRED,
};

#[test]
fn well_known_names() {
    assert_eq!(DEFAULT_SOLID, "default:solid");
    assert_eq!(DEFAULT_LIQUID, "default:liquid");
    assert_eq!(TOOL_REQUIRED, "default:tool_required");
    assert_eq!(NOT_DIGGABLE, "default:not_diggable");
    assert_eq!(AIR, "builtin:air");
    assert_eq!(FALLBACK_UNKNOWN_TEXTURE, "builtin:unknown");
}

#[test]
fn default_rules_dig_solid_blocks_in_one_second() {
    let rules = default_item_interaction_rules();
    assert_eq!(rules.len(), 3);
    assert_eq!(rules[0].block_group, vec!["default:not_diggable".to_string()]);
    assert_eq!(rules[0].dig_behavior, None);
    assert_eq!(rules[1].block_group, vec!["default:tool_required".to_string()]);
    assert_eq!(rules[1].dig_behavior, None);
    assert_eq!(rules[2].block_group, vec!["default:solid".to_string()]);
    assert_eq!(rules[2].dig_behavior, Some(DigBehavior::ConstantTime(ONE)));
    assert_eq!(f64::from_bits(ONE), 1.0);
}
