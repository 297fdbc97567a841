//! Names that plugins agree on, and the rules for items that are no tools.

use vstd::prelude::*;

verus! {

/// Block group for all solid blocks, e.g. dirt, glass, sand
pub const DEFAULT_SOLID: &'static str = "default:solid";

/// Block group for all liquid/fluid blocks, e.g. water, lava
pub const DEFAULT_LIQUID: &'static str = "default:liquid";

/// Blocks that cannot be dug by hand or using a generic non-tool item
pub const TOOL_REQUIRED: &'static str = "default:tool_required";

/// Blocks that cannot be dug under any circumstances (other than admin intervention)
/// Tools available to normal users should specify a dig_behavior of None for this block.
pub const NOT_DIGGABLE: &'static str = "default:not_diggable";

/// The block that stands where nothing else does.
pub const AIR: &'static str = "builtin:air";

/// A simple fallback texture.
pub const FALLBACK_UNKNOWN_TEXTURE: &'static str = "builtin:unknown";

/// The bits of the double-precision number one.
pub const ONE: u64 = 0x3ff0_0000_0000_0000;

/// How long digging a block takes.
#[derive(Clone, Copy, Debug, PartialEq, Eq, Structural)]
pub enum DigBehavior {
    /// The same time for every block: a number of seconds, held as the 64
    /// bits of a double-precision number (IEEE 754 binary64).
    ConstantTime(u64),
}

/// What an item does to the blocks of some groups.
#[derive(Debug)]
pub struct InteractionRule {
    /// The groups of blocks that the rule is for.
    pub block_group: Vec<String>,
    /// How the item digs these blocks; None where it cannot dig them.
    pub dig_behavior: Option<DigBehavior>,
}

impl InteractionRule {
    /// Whether the rule is for the one group `group` and digs as `dig_behavior` says.
    pub open spec fn is_rule(&self, group: Seq<char>, dig_behavior: Option<DigBehavior>) -> bool {
        &&& self.block_group@.len() == 1
        &&& self.block_group@[0]@ == group
        &&& self.dig_behavior == dig_behavior
    }
}

/// Get the default interaction rules for generic items that aren't some kind of special tool
/// e.g. stacks of random items/blocks, no item held in the hand, etc
///
/// Such an item digs neither what cannot be dug nor what needs a tool, and
/// digs every other solid block in one second. The first rule that is for a
/// block counts.
pub fn default_item_interaction_rules() -> (rules: Vec<InteractionRule>)
    ensures
        rules@.len() == 3,
        rules@[0].is_rule(NOT_DIGGABLE@, None),
        rules@[1].is_rule(TOOL_REQUIRED@, None),
        rules@[2].is_rule(DEFAULT_SOLID@, Some(DigBehavior::ConstantTime(ONE))),
{
    let mut rules: Vec<InteractionRule> = Vec::new();
    let mut not_diggable: Vec<String> = Vec::new();
    not_diggable.push(NOT_DIGGABLE.to_owned());
    rules.push(InteractionRule { block_group: not_diggable, dig_behavior: None });
    let mut tool_required: Vec<String> = Vec::new();
    tool_required.push(TOOL_REQUIRED.to_owned());
    rules.push(InteractionRule { block_group: tool_required, dig_behavior: None });
    let mut solid: Vec<String> = Vec::new();
    solid.push(DEFAULT_SOLID.to_owned());
    rules.push(
        InteractionRule { block_group: solid, dig_behavior: Some(DigBehavior::ConstantTime(ONE)) },
    );
    rules
}

} // verus!
