//! The entity data model: a game object with up to four optional
//! capabilities (Fighter, AI, Item, Equipment), plus the small value
//! types those capabilities are built from.

use vstd::prelude::*;
use vstd::string::StringExecFns;

verus! {

/// An RGB color attached to glyphs and messages.
#[derive(Clone, Copy, PartialEq, Eq, Structural, Debug)]
pub struct Color {
    pub r: u8,
    pub g: u8,
    pub b: u8,
}

/// What happens when a fighter's hit points reach zero.
#[derive(Clone, Copy, PartialEq, Eq, Structural, Debug)]
pub enum DeathCallback {
    Monster,
    Player,
}

/// The effect an item has when used. `Nothing` marks pure equipment,
/// which is intercepted before effect dispatch.
#[derive(Clone, Copy, PartialEq, Eq, Structural, Debug)]
pub enum Item {
    Heal,
    Lightning,
    Fireball,
    Confuse,
    Nothing,
}

/// The two equipment slots.
#[derive(Clone, Copy, PartialEq, Eq, Structural, Debug)]
pub enum Slot {
    RightHand,
    LeftHand,
}

/// An equippable capability: a slot, the equipped flag, and stat bonuses.
#[derive(Clone, Copy, PartialEq, Eq, Structural, Debug)]
pub struct Equipment {
    pub slot: Slot,
    pub is_equipped: bool,
    pub power_bonus: i32,
    pub defense_bonus: i32,
    pub max_hp_bonus: i32,
}

/// The combat capability: base stats, current hit points, experience
/// and the death outcome tag.
#[derive(Clone, Copy, PartialEq, Eq, Structural, Debug)]
pub struct Fighter {
    pub base_max_hp: i32,
    pub hp: i32,
    pub base_defense: i32,
    pub base_power: i32,
    pub xp: i32,
    pub death: Option<DeathCallback>,
}

impl Fighter {
    /// Heals by `amount` without going over `max_hp`, the entity's full
    /// maximum (base plus equipment bonuses), supplied by the caller.
    pub fn heal(&mut self, amount: i32, max_hp: i32)
        requires
            i32::MIN <= old(self).hp + amount <= i32::MAX,
        ensures
            *final(self) == (Fighter {
                hp: if old(self).hp + amount > max_hp {
                    max_hp
                } else {
                    (old(self).hp + amount) as i32
                },
                ..*old(self)
            }),
    {
        self.hp = self.hp + amount;
        if self.hp > max_hp {
            self.hp = max_hp;
        }
    }
}

/// The AI state machine variant: plain pursuit, or confusion with a
/// countdown of remaining turns.
#[derive(Clone, Copy, PartialEq, Eq, Structural, Debug)]
pub enum MonsterAIType {
    Basic,
    Confused { num_turns: i32 },
}

/// The AI capability: the owning entity's id, the current variant, and
/// the variant saved before confusion (one level deep, restored when the
/// confusion countdown ends).
#[derive(Clone, Copy, PartialEq, Eq, Structural, Debug)]
pub struct MonsterAI {
    pub monster_id: usize,
    pub old_ai: Option<MonsterAIType>,
    pub ai_type: MonsterAIType,
}

/// The mathematical value of an [`Object`]: identical fields, with the
/// display name widened to a sequence of characters.
pub struct ObjectV {
    pub x: i32,
    pub y: i32,
    pub glyph: char,
    pub name: Seq<char>,
    pub color: Color,
    pub blocks: bool,
    pub always_visible: bool,
    pub on_ground: bool,
    pub level: i32,
    pub fighter: Option<Fighter>,
    pub ai: Option<MonsterAI>,
    pub item: Option<Item>,
    pub equipment: Option<Equipment>,
}

/// A game entity: position, display data, flags, and the optional
/// capability set.
pub struct Object {
    pub x: i32,
    pub y: i32,
    pub glyph: char,
    pub name: String,
    pub color: Color,
    pub blocks: bool,
    pub always_visible: bool,
    pub on_ground: bool,
    pub level: i32,
    pub fighter: Option<Fighter>,
    pub ai: Option<MonsterAI>,
    pub item: Option<Item>,
    pub equipment: Option<Equipment>,
}

impl View for Object {
    type V = ObjectV;

    open spec fn view(&self) -> ObjectV {
        ObjectV {
            x: self.x,
            y: self.y,
            glyph: self.glyph,
            name: self.name@,
            color: self.color,
            blocks: self.blocks,
            always_visible: self.always_visible,
            on_ground: self.on_ground,
            level: self.level,
            fighter: self.fighter,
            ai: self.ai,
            item: self.item,
            equipment: self.equipment,
        }
    }
}

impl Object {
    /// Builds a bare entity at `(x, y)` with no capabilities, not yet
    /// explored by anything: on the ground, level 0, not always visible.
    pub fn new(x: i32, y: i32, glyph: char, name: &str, color: Color, blocks: bool) -> (o: Object)
        ensures
            o@ == (ObjectV {
                x,
                y,
                glyph,
                name: name@,
                color,
                blocks,
                always_visible: false,
                on_ground: true,
                level: 0,
                fighter: None,
                ai: None,
                item: None,
                equipment: None,
            }),
    {
        Object {
            x,
            y,
            glyph,
            name: String::from_str(name),
            color,
            blocks,
            always_visible: false,
            on_ground: true,
            level: 0,
            fighter: None,
            ai: None,
            item: None,
            equipment: None,
        }
    }

    /// The entity's position.
    pub fn pos(&self) -> (p: (i32, i32))
        ensures
            p == (self.x, self.y),
    {
        (self.x, self.y)
    }

    /// Moves the entity to `(x, y)`.
    pub fn set_pos(&mut self, x: i32, y: i32)
        ensures
            final(self)@ == (ObjectV { x, y, ..old(self)@ }),
    {
        self.x = x;
        self.y = y;
    }

    /// A deep copy whose mathematical value equals this entity's.
    pub fn duplicate(&self) -> (o: Object)
        ensures
            o@ == self@,
    {
        Object {
            x: self.x,
            y: self.y,
            glyph: self.glyph,
            name: self.name.clone(),
            color: self.color,
            blocks: self.blocks,
            always_visible: self.always_visible,
            on_ground: self.on_ground,
            level: self.level,
            fighter: self.fighter,
            ai: self.ai,
            item: self.item,
            equipment: self.equipment,
        }
    }
}

} // verus!
