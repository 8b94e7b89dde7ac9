//! Tunable constants of the simulation: map dimensions, dungeon
//! generation parameters, spell values, experience thresholds, and the
//! caps that the well-formedness invariant places on stats so that all
//! stat arithmetic stays inside `i32`.

use vstd::prelude::*;

verus! {

/// Width of the dungeon grid, in tiles.
pub const MAP_WIDTH: i32 = 80;

/// Height of the dungeon grid, in tiles.
pub const MAP_HEIGHT: i32 = 43;

/// Radius of the player's torch light: the visibility oracle answers
/// within this distance.
pub const TORCH_RADIUS: i32 = 10;

/// Capacity of the bounded message log; the oldest entry is evicted
/// when a message arrives at capacity.
pub const MSG_HEIGHT: usize = 6;

/// Generated rooms are at most this wide and tall (exclusive bound).
pub const ROOM_MAX_SIZE: i32 = 10;

/// Generated rooms are at least this wide and tall.
pub const ROOM_MIN_SIZE: i32 = 6;

/// Number of room placements attempted per level.
pub const MAX_ROOMS: i32 = 30;

/// Hit points restored by a healing potion.
pub const HEAL_AMOUNT: i32 = 40;

/// Damage dealt by a lightning bolt scroll.
pub const LIGHTNING_DAMAGE: i32 = 40;

/// Maximum distance at which lightning finds a target.
pub const LIGHTNING_RANGE: i32 = 5;

/// Maximum distance at which a confusion scroll finds a target.
pub const CONFUSE_RANGE: i32 = 8;

/// Number of AI turns a confused monster stumbles around.
pub const CONFUSE_NUM_TURNS: i32 = 10;

/// Radius of the fireball blast.
pub const FIREBALL_RADIUS: i32 = 3;

/// Damage dealt to every fighter inside the fireball blast.
pub const FIREBALL_DAMAGE: i32 = 25;

/// Base experience needed for the first level-up.
pub const LEVEL_UP_BASE: i32 = 200;

/// Additional experience needed per level already gained.
pub const LEVEL_UP_FACTOR: i32 = 150;

/// Maximum number of entries in the player's inventory.
pub const INVENTORY_CAPACITY: usize = 26;

/// Well-formedness cap on an entity's level. A level-up requires
/// `LEVEL_UP_BASE + level * LEVEL_UP_FACTOR` experience, and experience
/// is capped by `XP_POTENTIAL_CAP`, so a level never reaches this.
pub const LEVEL_LIMIT: i32 = 7_000_000;

/// Well-formedness cap on each single equipment bonus.
pub const BONUS_LIMIT: i32 = 1_000;

/// Cap on the total equipment bonus a fighter can enjoy: a full
/// inventory of maximal bonuses.
pub const EQUIP_TOTAL_LIMIT: i32 = 26_000;

/// Well-formedness cap on the experience in play: the player's
/// experience plus the experience carried by every other fighter.
/// Killing a monster moves its experience to the player, so the total
/// never grows outside dungeon generation.
pub const XP_POTENTIAL_CAP: i32 = 1_000_000_000;

/// An upper bound on the experience a freshly generated level brings
/// into play: at most `MAX_ROOMS` rooms of at most four monsters
/// carrying at most 100 experience each, with headroom.
pub const FRESH_XP_LIMIT: i32 = 30_000;

} // verus!
