//! The component types of the entity-component store: plain data attached
//! to entities. Intent components (`WantsToMelee`, `SufferDamage`,
//! `WantsToPickUpItem`) are one-shot messages, consumed and removed by
//! exactly one downstream system within the turn they are attached.

use vstd::prelude::*;

verus! {

/// An entity identifier: a stable index into the store's tables.
/// Slots are never reused, so a destroyed entity's identifier stays
/// distinguishable from every live one for the rest of the run.
pub type Entity = usize;

/// Integer tile coordinates of an entity standing on the map.
#[derive(Clone, Copy, Debug, PartialEq, Eq, Structural)]
pub struct Position {
    pub x: i32,
    pub y: i32,
}

/// An 8-bit-per-channel color, used only by the rendering collaborator.
#[derive(Clone, Copy, Debug, PartialEq, Eq, Structural)]
pub struct Rgb {
    pub r: u8,
    pub g: u8,
    pub b: u8,
}

/// Presentation data: read by the renderer, never by simulation systems.
#[derive(Clone, Copy, Debug, PartialEq, Eq, Structural)]
pub struct Renderable {
    pub glyph: u16,
    pub fg: Rgb,
    pub bg: Rgb,
}

/// The set of tiles an entity can currently see, with its sight range.
/// The dirty flag lets the visibility system skip an unchanged viewshed;
/// it is an optimization, not a correctness requirement.
pub struct Viewshed {
    pub visible_tiles: Vec<(i32, i32)>,
    pub range: i32,
    pub dirty: bool,
}

/// Combat statistics. `hp` stays within `[0, max_hp]` after damage
/// application: clamped, never negative.
#[derive(Clone, Copy, Debug, PartialEq, Eq, Structural)]
pub struct CombatStats {
    pub max_hp: i32,
    pub hp: i32,
    pub defense: i32,
    pub power: i32,
}

impl CombatStats {
    /// Bounds that keep all combat arithmetic free of overflow.
    pub open spec fn wf(self) -> bool {
        &&& 0 <= self.hp <= self.max_hp <= 1_000_000
        &&& 0 <= self.defense <= 1_000_000
        &&& 0 <= self.power <= 1_000_000
    }
}

/// A display label for an entity.
pub struct Name {
    pub name: String,
}

/// Intent: this entity wants to attack `target` in melee this turn.
#[derive(Clone, Copy, Debug, PartialEq, Eq, Structural)]
pub struct WantsToMelee {
    pub target: Entity,
}

/// Intent: pending damage amounts queued against this entity. Multiple
/// sources in one turn append; the damage system drains the whole queue.
pub struct SufferDamage {
    pub amount: Vec<i32>,
}

/// Relationship: the item entity this is attached to sits in `owner`'s
/// backpack and no longer has a position on the ground.
#[derive(Clone, Copy, Debug, PartialEq, Eq, Structural)]
pub struct InBackpack {
    pub owner: Entity,
}

/// Intent: the entity this is attached to wants to pick up `item`.
#[derive(Clone, Copy, Debug, PartialEq, Eq, Structural)]
pub struct WantsToPickUpItem {
    pub item: Entity,
}

/// A healing item's potency.
#[derive(Clone, Copy, Debug, PartialEq, Eq, Structural)]
pub struct HealingPotion {
    pub heal_amount: i32,
}

/// One structured entry of the shared message log. The rendering
/// collaborator turns entries into display text; the simulation only
/// records what happened.
pub enum LogEntry {
    Welcome,
    /// `attacker` hit `target` for `amount` hit points.
    Attack { attacker: Entity, target: Entity, amount: i32 },
    /// `attacker` swung at `target` but could not hurt it.
    NoDamage { attacker: Entity, target: Entity },
    /// A monster died.
    Died { victim: Entity },
    /// The player's hit points reached zero: game over.
    PlayerDied,
    /// `collector` picked up `item`.
    PickedUp { collector: Entity, item: Entity },
    /// There was nothing under the player to pick up.
    NothingToPickUp,
}

} // verus!
