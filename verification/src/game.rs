//! The aggregate game state: the entity arena, the tile grid, the
//! bounded message log, the inventory, and the well-formedness
//! invariant every engine operation preserves. Also the stat-aggregation
//! queries over equipped items.

use vstd::prelude::*;
use crate::consts::{
    MAP_WIDTH, MAP_HEIGHT, MSG_HEIGHT, INVENTORY_CAPACITY, LEVEL_LIMIT, BONUS_LIMIT,
    EQUIP_TOTAL_LIMIT, XP_POTENTIAL_CAP,
};
use crate::entity::{Color, DeathCallback, Equipment, Fighter, Item, MonsterAI, MonsterAIType,
    Object, ObjectV, Slot};
use crate::gamemap::{Grid, Tile, grid_view, map_wf, in_map};

verus! {

/// The game is in play, or the player has died (terminal for entity
/// and AI processing; saving remains possible).
#[derive(Clone, Copy, PartialEq, Eq, Structural, Debug)]
pub enum GameState {
    Playing,
    Death,
}

/// The mathematical value of a vector of entities.
pub open spec fn objs_view(v: Seq<Object>) -> Seq<ObjectV> {
    v.map_values(|o: Object| o@)
}

/// The mathematical value of the inventory: entity ids as integers.
pub open spec fn inv_view(v: Seq<usize>) -> Seq<int> {
    v.map_values(|u: usize| u as int)
}

/// The mathematical value of the message log.
pub open spec fn msgs_view(v: Seq<(String, Color)>) -> Seq<(Seq<char>, Color)> {
    v.map_values(|p: (String, Color)| (p.0@, p.1))
}

/// The mathematical value of a [`Game`].
pub struct GameV {
    pub state: GameState,
    pub dungeon_level: i32,
    pub map: Seq<Seq<Tile>>,
    pub fov_recompute: bool,
    pub messages: Seq<(Seq<char>, Color)>,
    pub objects: Seq<ObjectV>,
    pub player_id: int,
    pub stairs_id: int,
    pub inventory: Seq<int>,
}

/// The aggregate root: everything the simulation reads or writes.
pub struct Game {
    pub state: GameState,
    pub dungeon_level: i32,
    pub map: Grid,
    pub fov_recompute: bool,
    pub messages: Vec<(String, Color)>,
    pub objects: Vec<Object>,
    pub player_id: usize,
    pub stairs_id: usize,
    pub inventory: Vec<usize>,
}

impl View for Game {
    type V = GameV;

    open spec fn view(&self) -> GameV {
        GameV {
            state: self.state,
            dungeon_level: self.dungeon_level,
            map: grid_view(self.map),
            fov_recompute: self.fov_recompute,
            messages: msgs_view(self.messages@),
            objects: objs_view(self.objects@),
            player_id: self.player_id as int,
            stairs_id: self.stairs_id as int,
            inventory: inv_view(self.inventory@),
        }
    }
}

/// The entity carries equipment that is currently equipped.
pub open spec fn is_equipped_ent(o: ObjectV) -> bool {
    o.equipment matches Some(e) && e.is_equipped
}

/// The slot of the entity's equipment (meaningful only when it has some).
pub open spec fn slot_of(o: ObjectV) -> Slot {
    o.equipment->Some_0.slot
}

/// Which of the three stat bonuses a query aggregates.
pub enum BonusKind {
    Power,
    Defense,
    MaxHp,
}

/// The bonus an entity contributes to a stat: its equipment's bonus if
/// equipped, zero otherwise.
pub open spec fn equip_bonus(o: ObjectV, kind: BonusKind) -> int {
    match o.equipment {
        Some(e) => if e.is_equipped {
            match kind {
                BonusKind::Power => e.power_bonus as int,
                BonusKind::Defense => e.defense_bonus as int,
                BonusKind::MaxHp => e.max_hp_bonus as int,
            }
        } else {
            0
        },
        None => 0,
    }
}

/// The total bonus of one kind contributed by the inventory entries.
pub open spec fn sum_bonus(objs: Seq<ObjectV>, inv: Seq<int>, kind: BonusKind) -> int
    decreases inv.len(),
{
    if inv.len() == 0 {
        0
    } else {
        sum_bonus(objs, inv.drop_last(), kind) + equip_bonus(objs[inv.last()], kind)
    }
}

/// An entity's base stat of one kind: the fighter's, or zero without one.
pub open spec fn base_stat(o: ObjectV, kind: BonusKind) -> int {
    match o.fighter {
        Some(f) => match kind {
            BonusKind::Power => f.base_power as int,
            BonusKind::Defense => f.base_defense as int,
            BonusKind::MaxHp => f.base_max_hp as int,
        },
        None => 0,
    }
}

/// A full stat: base plus, for the player only, the sum of equipped
/// bonuses in the inventory. Other entities get no equipment bonus.
pub open spec fn spec_full_stat(g: GameV, id: int, kind: BonusKind) -> int {
    base_stat(g.objects[id], kind) + if id == g.player_id {
        sum_bonus(g.objects, g.inventory, kind)
    } else {
        0
    }
}

/// The experience carried by every fighter other than the player.
pub open spec fn monsters_xp(objs: Seq<ObjectV>, player_id: int) -> int
    decreases objs.len(),
{
    if objs.len() == 0 {
        0
    } else {
        monsters_xp(objs.drop_last(), player_id) + xp_contrib(
            objs.last(),
            objs.len() - 1,
            player_id,
        )
    }
}

/// The contribution of the entity at index `i` to [`monsters_xp`].
pub open spec fn xp_contrib(o: ObjectV, i: int, player_id: int) -> int {
    if i != player_id {
        match o.fighter {
            Some(f) => f.xp as int,
            None => 0,
        }
    } else {
        0
    }
}

/// The experience in play: the player's plus every other fighter's.
/// Killing a monster transfers its experience to the player, so this
/// total never grows outside dungeon generation.
pub open spec fn xp_potential(g: GameV) -> int {
    (match g.player().fighter {
        Some(f) => f.xp as int,
        None => 0,
    }) + monsters_xp(g.objects, g.player_id)
}

impl GameV {
    /// The player entity.
    pub open spec fn player(self) -> ObjectV {
        self.objects[self.player_id]
    }

    /// The two stored ids index the arena.
    pub open spec fn ids_ok(self) -> bool {
        &&& 0 <= self.player_id < self.objects.len()
        &&& 0 <= self.stairs_id < self.objects.len()
    }

    /// The player always carries a Fighter tagged with the Player death
    /// outcome, never an AI, and is alive while the game is in play.
    pub open spec fn player_ok(self) -> bool {
        &&& self.player().fighter matches Some(f) && f.death == Some(DeathCallback::Player)
        &&& 1 <= self.player().level
        &&& self.player().ai is None
        &&& (self.state is Playing ==> self.player().fighter->Some_0.hp >= 1)
    }

    /// Per-entity conditions: in-bounds position, bounded stats, a
    /// consistent AI back-reference, and the death-outcome discipline
    /// (exactly one entity carries the Player outcome; live monsters
    /// have positive hit points).
    pub open spec fn entity_ok(self, i: int) -> bool {
        let o = self.objects[i];
        &&& 1 <= o.x <= MAP_WIDTH - 2
        &&& 1 <= o.y <= MAP_HEIGHT - 2
        &&& (o.fighter matches Some(f) ==> {
            &&& 0 <= o.level <= LEVEL_LIMIT
            &&& 1 <= f.base_max_hp <= 100 + 20 * o.level
            &&& 0 <= f.base_power <= 10 + o.level
            &&& 0 <= f.base_defense <= 10 + o.level
            &&& 0 <= f.xp
            &&& f.hp <= f.base_max_hp + EQUIP_TOTAL_LIMIT
            &&& f.death is Some
        })
        &&& (o.equipment matches Some(e) ==> {
            &&& 0 <= e.power_bonus <= BONUS_LIMIT
            &&& 0 <= e.defense_bonus <= BONUS_LIMIT
            &&& 0 <= e.max_hp_bonus <= BONUS_LIMIT
        })
        &&& (o.ai matches Some(a) ==> {
            &&& a.monster_id == i
            &&& o.fighter is Some
            &&& i != self.player_id
            &&& (a.old_ai matches Some(k) ==> k is Basic)
            &&& (a.ai_type matches MonsterAIType::Confused { num_turns } ==> num_turns >= 0)
        })
        &&& (i != self.player_id ==> (o.fighter matches Some(f) ==> f.death != Some(
            DeathCallback::Player,
        )))
        &&& (i != self.player_id ==> (o.fighter matches Some(f) ==> (f.death == Some(
            DeathCallback::Monster,
        ) ==> f.hp >= 1)))
    }

    /// [`Self::entity_ok`] for the whole arena.
    pub open spec fn entities_ok(self) -> bool {
        forall|i: int| 0 <= i < self.objects.len() ==> self.entity_ok(i)
    }

    /// Inventory discipline: bounded, in-range, duplicate-free entries,
    /// all of them plain carried things (no Fighter, no AI — the level
    /// transition re-seeds the arena from them, so their ids change);
    /// everything equipped sits in the inventory; and at most one
    /// equipped entity per slot.
    pub open spec fn inventory_ok(self) -> bool {
        &&& self.inventory.len() <= INVENTORY_CAPACITY
        &&& forall|k: int|
            0 <= k < self.inventory.len() ==> 0 <= #[trigger] self.inventory[k]
                < self.objects.len()
        &&& forall|k: int|
            0 <= k < self.inventory.len() ==> self.objects[#[trigger] self.inventory[k]].fighter
                is None && self.objects[self.inventory[k]].ai is None
        &&& forall|k1: int, k2: int|
            #![trigger self.inventory[k1], self.inventory[k2]]
            0 <= k1 < k2 < self.inventory.len() ==> self.inventory[k1] != self.inventory[k2]
        &&& forall|i: int|
            0 <= i < self.objects.len() && is_equipped_ent(#[trigger] self.objects[i])
                ==> self.inventory.contains(i)
        &&& forall|i: int, j: int|
            #![trigger self.objects[i].equipment, self.objects[j].equipment]
            0 <= i < self.objects.len() && 0 <= j < self.objects.len() && i != j
                && is_equipped_ent(self.objects[i]) && is_equipped_ent(self.objects[j])
                ==> slot_of(self.objects[i]) != slot_of(self.objects[j])
    }

    /// The whole well-formedness invariant.
    pub open spec fn wf(self) -> bool {
        &&& self.ids_ok()
        &&& self.player_ok()
        &&& self.entities_ok()
        &&& self.inventory_ok()
        &&& map_wf(self.map)
        &&& self.messages.len() <= MSG_HEIGHT
        &&& 1 <= self.dungeon_level
        &&& xp_potential(self) <= XP_POTENTIAL_CAP
    }

    /// Everything but the message log and the fov flag is unchanged:
    /// the shape of a query or a refused action that still reports.
    pub open spec fn same_but_log(self, other: GameV) -> bool {
        other == (GameV { messages: other.messages, ..self })
    }
}

/// The bounded log push: at capacity the oldest entry is evicted.
pub open spec fn log_push(log: Seq<(Seq<char>, Color)>, entry: (Seq<char>, Color)) -> Seq<
    (Seq<char>, Color),
> {
    if log.len() >= MSG_HEIGHT {
        log.drop_first().push(entry)
    } else {
        log.push(entry)
    }
}

impl Game {
    /// Appends to the bounded message log, evicting the oldest entry at
    /// capacity.
    pub fn message(&mut self, new_msg: String, color: Color)
        requires
            old(self)@.messages.len() <= MSG_HEIGHT,
        ensures
            final(self)@ == (GameV {
                messages: log_push(old(self)@.messages, (new_msg@, color)),
                ..old(self)@
            }),
    {
        if self.messages.len() >= MSG_HEIGHT {
            self.messages.remove(0);
            proof {
                assert(msgs_view(self.messages@) =~= msgs_view(old(self).messages@).drop_first());
            }
        }
        self.messages.push((new_msg, color));
        proof {
            if old(self)@.messages.len() >= MSG_HEIGHT {
                assert(msgs_view(self.messages@) =~= log_push(
                    msgs_view(old(self).messages@),
                    (new_msg@, color),
                ));
            } else {
                assert(msgs_view(self.messages@) =~= log_push(
                    msgs_view(old(self).messages@),
                    (new_msg@, color),
                ));
            }
        }
    }
}

/// `o` with its equipment's equipped flag set to `b` (meaningful only
/// when it has equipment).
pub open spec fn set_equipped(o: ObjectV, b: bool) -> ObjectV {
    ObjectV { equipment: Some(Equipment { is_equipped: b, ..o.equipment->Some_0 }), ..o }
}

/// The entity currently equipped in `slot`, if any. Under
/// well-formedness it is unique.
pub open spec fn slot_occupant(g: GameV, slot: Slot) -> Option<int> {
    if exists|i: int|
        0 <= i < g.objects.len() && is_equipped_ent(#[trigger] g.objects[i]) && slot_of(
            g.objects[i],
        ) == slot {
        Some(
            choose|i: int|
                0 <= i < g.objects.len() && is_equipped_ent(#[trigger] g.objects[i]) && slot_of(
                    g.objects[i],
                ) == slot,
        )
    } else {
        None
    }
}

/// An entity equipped in a slot is that slot's unique occupant.
pub proof fn lemma_occupant_unique(g: GameV, slot: Slot, i: int)
    requires
        g.wf(),
        0 <= i < g.objects.len(),
        is_equipped_ent(g.objects[i]),
        slot_of(g.objects[i]) == slot,
    ensures
        slot_occupant(g, slot) == Some(i),
{
    let j = choose|j: int|
        0 <= j < g.objects.len() && is_equipped_ent(#[trigger] g.objects[j]) && slot_of(
            g.objects[j],
        ) == slot;
    if j != i {
        assert(slot_of(g.objects[i]) != slot_of(g.objects[j]));
    }
}

/// When no inventory entry is equipped in a slot, the slot is free.
pub proof fn lemma_no_occupant(g: GameV, slot: Slot)
    requires
        g.wf(),
        forall|k: int|
            0 <= k < g.inventory.len() ==> !(is_equipped_ent(
                #[trigger] g.objects[g.inventory[k]],
            ) && slot_of(g.objects[g.inventory[k]]) == slot),
    ensures
        slot_occupant(g, slot) is None,
{
    if slot_occupant(g, slot) is Some {
        let i = choose|i: int|
            0 <= i < g.objects.len() && is_equipped_ent(#[trigger] g.objects[i]) && slot_of(
                g.objects[i],
            ) == slot;
        assert(g.inventory.contains(i));
        let k = choose|k: int| 0 <= k < g.inventory.len() && g.inventory[k] == i;
        assert(!(is_equipped_ent(g.objects[g.inventory[k]]) && slot_of(g.objects[g.inventory[k]])
            == slot));
    }
}

/// A state differing only in its (bounded) message log is as
/// well-formed as the original.
pub proof fn lemma_wf_log_only(g0: GameV, g1: GameV)
    requires
        g0.wf(),
        g1 == (GameV { messages: g1.messages, ..g0 }),
        g1.messages.len() <= MSG_HEIGHT,
    ensures
        g1.wf(),
{
    assert forall|i: int| 0 <= i < g1.objects.len() implies g1.entity_ok(i) by {
        assert(g0.entity_ok(i));
    }
    assert(xp_potential(g1) == xp_potential(g0));
}

/// Toggling one entity's equipped flag changes a full stat by exactly
/// that entity's own contribution: no other item's contribution moves.
pub proof fn lemma_toggle_changes_own_contribution(g: GameV, id: int, b: bool, kind: BonusKind)
    requires
        g.wf(),
        0 <= id < g.objects.len(),
        g.objects[id].equipment is Some,
    ensures
        ({
            let g2 = GameV { objects: g.objects.update(id, set_equipped(g.objects[id], b)), ..g };
            spec_full_stat(g2, g.player_id, kind) == spec_full_stat(g, g.player_id, kind) + (
            if g.inventory.contains(id) {
                equip_bonus(set_equipped(g.objects[id], b), kind) - equip_bonus(
                    g.objects[id],
                    kind,
                )
            } else {
                0
            })
        }),
{
    lemma_sum_bonus_update(g.objects, g.inventory, id, set_equipped(g.objects[id], b), kind);
}

/// A state differing only in its visibility-cache flag is as
/// well-formed as the original.
pub proof fn lemma_wf_fov_only(g0: GameV, g1: GameV)
    requires
        g0.wf(),
        g1 == (GameV { fov_recompute: g1.fov_recompute, ..g0 }),
    ensures
        g1.wf(),
{
    assert forall|i: int| 0 <= i < g1.objects.len() implies g1.entity_ok(i) by {
        assert(g0.entity_ok(i));
    }
    assert(xp_potential(g1) == xp_potential(g0));
}

/// Replacing one entity with one carrying the same fighter leaves the
/// experience in play unchanged.
pub proof fn lemma_xp_potential_update_same_fighter(g: GameV, id: int, o: ObjectV)
    requires
        0 <= id < g.objects.len(),
        0 <= g.player_id < g.objects.len(),
        o.fighter == g.objects[id].fighter,
    ensures
        xp_potential(GameV { objects: g.objects.update(id, o), ..g }) == xp_potential(g),
{
    lemma_monsters_xp_update(g.objects, g.player_id, id, o);
}

impl Game {
    /// Sets the equipped flag of the entity's equipment.
    pub fn set_equipment_flag(&mut self, id: usize, equipped: bool)
        requires
            id < old(self)@.objects.len(),
            old(self)@.objects[id as int].equipment is Some,
        ensures
            final(self)@ == (GameV {
                objects: old(self)@.objects.update(
                    id as int,
                    set_equipped(old(self)@.objects[id as int], equipped),
                ),
                ..old(self)@
            }),
    {
        proof {
            assert(objs_view(self.objects@)[id as int] == self.objects@[id as int]@);
        }
        let o = &mut self.objects[id];
        match &mut o.equipment {
            Some(e) => {
                e.is_equipped = equipped;
            },
            None => {},
        }
        proof {
            assert(objs_view(self.objects@) =~= objs_view(old(self).objects@).update(
                id as int,
                set_equipped(objs_view(old(self).objects@)[id as int], equipped),
            ));
        }
    }

    /// Sets the on-ground flag of an entity.
    pub fn set_on_ground(&mut self, id: usize, on_ground: bool)
        requires
            id < old(self)@.objects.len(),
        ensures
            final(self)@ == (GameV {
                objects: old(self)@.objects.update(
                    id as int,
                    ObjectV { on_ground, ..old(self)@.objects[id as int] },
                ),
                ..old(self)@
            }),
    {
        proof {
            assert(objs_view(self.objects@)[id as int] == self.objects@[id as int]@);
        }
        let o = &mut self.objects[id];
        o.on_ground = on_ground;
        proof {
            assert(objs_view(self.objects@) =~= objs_view(old(self).objects@).update(
                id as int,
                ObjectV { on_ground, ..objs_view(old(self).objects@)[id as int] },
            ));
        }
    }

    /// Moves an entity to `(x, y)`.
    pub fn set_object_pos(&mut self, id: usize, x: i32, y: i32)
        requires
            id < old(self)@.objects.len(),
        ensures
            final(self)@ == (GameV {
                objects: old(self)@.objects.update(
                    id as int,
                    ObjectV { x, y, ..old(self)@.objects[id as int] },
                ),
                ..old(self)@
            }),
    {
        proof {
            assert(objs_view(self.objects@)[id as int] == self.objects@[id as int]@);
        }
        let o = &mut self.objects[id];
        o.x = x;
        o.y = y;
        proof {
            assert(objs_view(self.objects@) =~= objs_view(old(self).objects@).update(
                id as int,
                ObjectV { x, y, ..objs_view(old(self).objects@)[id as int] },
            ));
        }
    }

    /// Replaces an entity's fighter capability.
    pub fn set_fighter(&mut self, id: usize, fighter: Option<Fighter>)
        requires
            id < old(self)@.objects.len(),
        ensures
            final(self)@ == (GameV {
                objects: old(self)@.objects.update(
                    id as int,
                    ObjectV { fighter, ..old(self)@.objects[id as int] },
                ),
                ..old(self)@
            }),
    {
        proof {
            assert(objs_view(self.objects@)[id as int] == self.objects@[id as int]@);
        }
        let o = &mut self.objects[id];
        o.fighter = fighter;
        proof {
            assert(objs_view(self.objects@) =~= objs_view(old(self).objects@).update(
                id as int,
                ObjectV { fighter, ..objs_view(old(self).objects@)[id as int] },
            ));
        }
    }

    /// Applies the death transform to an entity: corpse glyph and
    /// color, no longer blocking, Fighter and AI stripped, renamed.
    pub fn transform_remains(&mut self, id: usize, new_name: String, color: Color)
        requires
            id < old(self)@.objects.len(),
        ensures
            final(self)@ == (GameV {
                objects: old(self)@.objects.update(
                    id as int,
                    ObjectV {
                        glyph: '%',
                        color,
                        blocks: false,
                        fighter: None,
                        ai: None,
                        name: new_name@,
                        ..old(self)@.objects[id as int]
                    },
                ),
                ..old(self)@
            }),
    {
        proof {
            assert(objs_view(self.objects@)[id as int] == self.objects@[id as int]@);
        }
        let o = &mut self.objects[id];
        o.glyph = '%';
        o.color = color;
        o.blocks = false;
        o.fighter = None;
        o.ai = None;
        o.name = new_name;
        proof {
            assert(objs_view(self.objects@) =~= objs_view(old(self).objects@).update(
                id as int,
                ObjectV {
                    glyph: '%',
                    color,
                    blocks: false,
                    fighter: None,
                    ai: None,
                    name: new_name@,
                    ..objs_view(old(self).objects@)[id as int]
                },
            ));
        }
    }

    /// Changes an entity's glyph and color.
    pub fn set_glyph_color(&mut self, id: usize, glyph: char, color: Color)
        requires
            id < old(self)@.objects.len(),
        ensures
            final(self)@ == (GameV {
                objects: old(self)@.objects.update(
                    id as int,
                    ObjectV { glyph, color, ..old(self)@.objects[id as int] },
                ),
                ..old(self)@
            }),
    {
        proof {
            assert(objs_view(self.objects@)[id as int] == self.objects@[id as int]@);
        }
        let o = &mut self.objects[id];
        o.glyph = glyph;
        o.color = color;
        proof {
            assert(objs_view(self.objects@) =~= objs_view(old(self).objects@).update(
                id as int,
                ObjectV { glyph, color, ..objs_view(old(self).objects@)[id as int] },
            ));
        }
    }

    /// Replaces an entity's AI capability.
    pub fn set_ai(&mut self, id: usize, ai: Option<MonsterAI>)
        requires
            id < old(self)@.objects.len(),
        ensures
            final(self)@ == (GameV {
                objects: old(self)@.objects.update(
                    id as int,
                    ObjectV { ai, ..old(self)@.objects[id as int] },
                ),
                ..old(self)@
            }),
    {
        proof {
            assert(objs_view(self.objects@)[id as int] == self.objects@[id as int]@);
        }
        let o = &mut self.objects[id];
        o.ai = ai;
        proof {
            assert(objs_view(self.objects@) =~= objs_view(old(self).objects@).update(
                id as int,
                ObjectV { ai, ..objs_view(old(self).objects@)[id as int] },
            ));
        }
    }
}

/// Whether the cell `(x, y)` refuses movement: a blocked tile, or any
/// blocking entity standing there.
pub open spec fn spec_is_blocked(g: GameV, x: int, y: int) -> bool {
    ||| g.map[x][y].blocked
    ||| exists|i: int|
        0 <= i < g.objects.len() && (#[trigger] g.objects[i]).blocks && g.objects[i].x == x
            && g.objects[i].y == y
}

/// Tests whether `(x, y)` is blocked by the map or by a blocking entity.
pub fn is_blocked(x: i32, y: i32, map: &Grid, objects: &Vec<Object>) -> (r: bool)
    requires
        map_wf(grid_view(*map)),
        in_map(x as int, y as int),
    ensures
        r == (grid_view(*map)[x as int][y as int].blocked || exists|i: int|
            0 <= i < objs_view(objects@).len() && (#[trigger] objs_view(objects@)[i]).blocks
                && objs_view(objects@)[i].x == x && objs_view(objects@)[i].y == y),
{
    let t = crate::gamemap::get_tile(map, x as usize, y as usize);
    if t.blocked {
        return true;
    }
    let mut i: usize = 0;
    while i < objects.len()
        invariant
            0 <= i <= objects.len(),
            forall|k: int|
                0 <= k < i ==> !((#[trigger] objs_view(objects@)[k]).blocks && objs_view(
                    objects@,
                )[k].x == x && objs_view(objects@)[k].y == y),
        decreases objects.len() - i,
    {
        let o = &objects[i];
        assert(objs_view(objects@)[i as int] == objects@[i as int]@);
        if o.blocks && o.x == x && o.y == y {
            return true;
        }
        i = i + 1;
    }
    false
}

/// Finds the first inventory entry equipped in `slot`, scanning in
/// inventory order; `None` when the slot is free.
pub fn get_equipped_in_slot(slot: Slot, inventory: &Vec<usize>, objects: &Vec<Object>) -> (r:
    Option<usize>)
    requires
        forall|k: int|
            0 <= k < inv_view(inventory@).len() ==> 0 <= #[trigger] inv_view(inventory@)[k]
                < objs_view(objects@).len(),
    ensures
        match r {
            Some(id) => exists|k: int|
                0 <= k < inv_view(inventory@).len() && #[trigger] inv_view(inventory@)[k]
                    == id as int && is_equipped_ent(objs_view(objects@)[id as int]) && slot_of(
                    objs_view(objects@)[id as int],
                ) == slot && (forall|k2: int|
                    0 <= k2 < k ==> !(is_equipped_ent(
                        #[trigger] objs_view(objects@)[inv_view(inventory@)[k2]],
                    ) && slot_of(objs_view(objects@)[inv_view(inventory@)[k2]]) == slot)),
            None => forall|k: int|
                0 <= k < inv_view(inventory@).len() ==> !(is_equipped_ent(
                    #[trigger] objs_view(objects@)[inv_view(inventory@)[k]],
                ) && slot_of(objs_view(objects@)[inv_view(inventory@)[k]]) == slot),
        },
{
    let mut k: usize = 0;
    while k < inventory.len()
        invariant
            0 <= k <= inventory.len(),
            forall|k2: int|
                0 <= k2 < inv_view(inventory@).len() ==> 0 <= #[trigger] inv_view(inventory@)[k2]
                    < objs_view(objects@).len(),
            forall|k2: int|
                0 <= k2 < k ==> !(is_equipped_ent(
                    #[trigger] objs_view(objects@)[inv_view(inventory@)[k2]],
                ) && slot_of(objs_view(objects@)[inv_view(inventory@)[k2]]) == slot),
        decreases inventory.len() - k,
    {
        let id = inventory[k];
        assert(inv_view(inventory@)[k as int] == id as int);
        let o = &objects[id];
        assert(objs_view(objects@)[id as int] == objects@[id as int]@);
        let equipped_here = match &o.equipment {
            Some(e) => e.is_equipped && slot_eq(e.slot, slot),
            None => false,
        };
        if equipped_here {
            return Some(id);
        }
        k = k + 1;
    }
    None
}

/// A bonus sum is bounded by `BONUS_LIMIT` per inventory entry.
pub proof fn lemma_sum_bonus_bound(objs: Seq<ObjectV>, inv: Seq<int>, kind: BonusKind)
    requires
        forall|k: int|
            0 <= k < inv.len() ==> 0 <= equip_bonus(objs[#[trigger] inv[k]], kind) <= BONUS_LIMIT,
    ensures
        0 <= sum_bonus(objs, inv, kind) <= BONUS_LIMIT * inv.len(),
    decreases inv.len(),
{
    if inv.len() > 0 {
        lemma_sum_bonus_bound(objs, inv.drop_last(), kind);
        assert(0 <= equip_bonus(objs[inv[inv.len() - 1]], kind) <= BONUS_LIMIT);
    }
}

/// Replacing one entity changes a bonus sum by exactly that entity's
/// contribution change, provided inventory entries are duplicate-free.
pub proof fn lemma_sum_bonus_update(
    objs: Seq<ObjectV>,
    inv: Seq<int>,
    j: int,
    o: ObjectV,
    kind: BonusKind,
)
    requires
        0 <= j < objs.len(),
        forall|k: int| 0 <= k < inv.len() ==> 0 <= #[trigger] inv[k] < objs.len(),
        forall|k1: int, k2: int|
            #![trigger inv[k1], inv[k2]]
            0 <= k1 < k2 < inv.len() ==> inv[k1] != inv[k2],
    ensures
        sum_bonus(objs.update(j, o), inv, kind) == sum_bonus(objs, inv, kind) + (if inv.contains(
            j,
        ) {
            equip_bonus(o, kind) - equip_bonus(objs[j], kind)
        } else {
            0
        }),
    decreases inv.len(),
{
    if inv.len() > 0 {
        let init = inv.drop_last();
        lemma_sum_bonus_update(objs, init, j, o, kind);
        if inv.last() == j {
            assert(!init.contains(j)) by {
                if init.contains(j) {
                    let k = choose|k: int| 0 <= k < init.len() && init[k] == j;
                    assert(inv[k] == j && inv[inv.len() - 1] == j);
                }
            }
            assert(inv.contains(j));
        } else {
            assert(init.contains(j) <==> inv.contains(j)) by {
                if inv.contains(j) {
                    let k = choose|k: int| 0 <= k < inv.len() && inv[k] == j;
                    assert(init[k] == j);
                }
                if init.contains(j) {
                    let k = choose|k: int| 0 <= k < init.len() && init[k] == j;
                    assert(inv[k] == j);
                }
            }
            assert(objs.update(j, o)[inv.last()] == objs[inv.last()]);
        }
    }
}

/// Replacing one entity changes the monsters' experience total by
/// exactly that entity's contribution change.
pub proof fn lemma_monsters_xp_update(objs: Seq<ObjectV>, pid: int, j: int, o: ObjectV)
    requires
        0 <= j < objs.len(),
    ensures
        monsters_xp(objs.update(j, o), pid) == monsters_xp(objs, pid) - xp_contrib(objs[j], j, pid)
            + xp_contrib(o, j, pid),
    decreases objs.len(),
{
    let upd = objs.update(j, o);
    if j == objs.len() - 1 {
        assert(upd.drop_last() =~= objs.drop_last());
    } else {
        assert(upd.drop_last() =~= objs.drop_last().update(j, o));
        lemma_monsters_xp_update(objs.drop_last(), pid, j, o);
        assert(upd.last() == objs.last());
    }
}

/// Appending one entity adds its contribution to the monsters'
/// experience total.
pub proof fn lemma_monsters_xp_push(objs: Seq<ObjectV>, pid: int, o: ObjectV)
    ensures
        monsters_xp(objs.push(o), pid) == monsters_xp(objs, pid) + xp_contrib(
            o,
            objs.len() as int,
            pid,
        ),
{
    assert(objs.push(o).drop_last() =~= objs);
}

/// With non-negative experience everywhere, the monsters' total is
/// non-negative and dominates each single monster's contribution.
pub proof fn lemma_monsters_xp_bounds(objs: Seq<ObjectV>, pid: int)
    requires
        forall|i: int|
            0 <= i < objs.len() ==> match (#[trigger] objs[i]).fighter {
                Some(f) => f.xp >= 0,
                None => true,
            },
    ensures
        monsters_xp(objs, pid) >= 0,
        forall|j: int| 0 <= j < objs.len() ==> xp_contrib(#[trigger] objs[j], j, pid) <= monsters_xp(
            objs,
            pid,
        ),
    decreases objs.len(),
{
    if objs.len() > 0 {
        lemma_monsters_xp_bounds(objs.drop_last(), pid);
        assert(xp_contrib(objs.last(), objs.len() - 1, pid) >= 0);
        assert forall|j: int| 0 <= j < objs.len() implies xp_contrib(#[trigger] objs[j], j, pid)
            <= monsters_xp(objs, pid) by {
            if j < objs.len() - 1 {
                assert(objs.drop_last()[j] == objs[j]);
            }
        }
    }
}

/// The monsters' experience over a prefix never exceeds the whole,
/// when every fighter's experience is non-negative.
pub proof fn lemma_monsters_xp_prefix_le(objs: Seq<ObjectV>, k: int, pid: int)
    requires
        0 <= k <= objs.len(),
        forall|i: int|
            0 <= i < objs.len() ==> match (#[trigger] objs[i]).fighter {
                Some(f) => f.xp >= 0,
                None => true,
            },
    ensures
        0 <= monsters_xp(objs.subrange(0, k), pid) <= monsters_xp(objs, pid),
    decreases objs.len() - k,
{
    let sub = objs.subrange(0, k);
    assert forall|i: int|
        0 <= i < sub.len() implies match (#[trigger] sub[i]).fighter {
        Some(f) => f.xp >= 0,
        None => true,
    } by {
        assert(sub[i] == objs[i]);
    }
    lemma_monsters_xp_bounds(sub, pid);
    if k == objs.len() {
        assert(sub =~= objs);
    } else {
        assert(objs.subrange(0, k + 1).drop_last() =~= sub);
        assert(objs.subrange(0, k + 1).last() == objs[k]);
        assert(xp_contrib(objs[k], k, pid) >= 0);
        lemma_monsters_xp_prefix_le(objs, k + 1, pid);
    }
}

/// The list of equipment carried equipped in the inventory, in
/// inventory order.
pub open spec fn equipped_list(objs: Seq<ObjectV>, inv: Seq<int>) -> Seq<Equipment>
    decreases inv.len(),
{
    if inv.len() == 0 {
        Seq::empty()
    } else {
        equipped_list(objs, inv.drop_last()) + (if is_equipped_ent(objs[inv.last()]) {
            seq![objs[inv.last()].equipment->Some_0]
        } else {
            Seq::empty()
        })
    }
}

/// Returns the equipment of every equipped inventory entry, in
/// inventory order. Entities other than the player carry no equipment
/// bonus, by design, and get the empty list.
pub fn get_all_equipped(id: usize, game: &Game) -> (r: Vec<Equipment>)
    requires
        game@.wf(),
    ensures
        r@ == if id as int == game@.player_id {
            equipped_list(game@.objects, game@.inventory)
        } else {
            Seq::<Equipment>::empty()
        },
{
    let mut r: Vec<Equipment> = Vec::new();
    if id != game.player_id {
        assert(r@ =~= Seq::<Equipment>::empty());
        return r;
    }
    let ghost objs = game@.objects;
    let ghost inv = game@.inventory;
    let mut k: usize = 0;
    while k < game.inventory.len()
        invariant
            game@.wf(),
            0 <= k <= game@.inventory.len(),
            objs == game@.objects,
            inv == game@.inventory,
            r@ == equipped_list(objs, inv.subrange(0, k as int)),
        decreases game@.inventory.len() - k,
    {
        let item_id = game.inventory[k];
        assert(inv[k as int] == item_id as int);
        assert(0 <= inv[k as int] < objs.len());
        let o = &game.objects[item_id];
        assert(objs[item_id as int] == game.objects@[item_id as int]@);
        match &o.equipment {
            Some(e) => {
                if e.is_equipped {
                    r.push(*e);
                }
            },
            None => {},
        }
        proof {
            assert(inv.subrange(0, k + 1).drop_last() =~= inv.subrange(0, k as int));
            assert(inv.subrange(0, k + 1).last() == inv[k as int]);
            if is_equipped_ent(objs[inv[k as int]]) {
                assert(r@ =~= equipped_list(objs, inv.subrange(0, k as int)) + seq![
                    objs[inv[k as int]].equipment->Some_0,
                ]);
            } else {
                assert(r@ =~= equipped_list(objs, inv.subrange(0, k as int))
                    + Seq::<Equipment>::empty());
            }
        }
        k = k + 1;
    }
    proof {
        assert(inv.subrange(0, inv.len() as int) =~= inv);
    }
    r
}

/// Computes one full stat: the base stat plus, for the player, the
/// equipped bonuses of the given kind.
fn full_stat(id: usize, game: &Game, kind: BonusKind) -> (r: i32)
    requires
        game@.wf(),
        id < game@.objects.len(),
    ensures
        r == spec_full_stat(game@, id as int, kind),
        0 <= r <= 100 + 20 * LEVEL_LIMIT + EQUIP_TOTAL_LIMIT,
{
    let ghost objs = game@.objects;
    let ghost inv = game@.inventory;
    assert(objs[id as int] == game.objects@[id as int]@);
    assert(game@.entity_ok(id as int));
    let base: i32 = match &game.objects[id].fighter {
        Some(f) => match kind {
            BonusKind::Power => f.base_power,
            BonusKind::Defense => f.base_defense,
            BonusKind::MaxHp => f.base_max_hp,
        },
        None => 0,
    };
    if id != game.player_id {
        return base;
    }
    let mut bonus: i32 = 0;
    let mut k: usize = 0;
    while k < game.inventory.len()
        invariant
            game@.wf(),
            0 <= k <= game@.inventory.len(),
            objs == game@.objects,
            inv == game@.inventory,
            bonus == sum_bonus(objs, inv.subrange(0, k as int), kind),
            0 <= bonus <= BONUS_LIMIT * k,
        decreases game@.inventory.len() - k,
    {
        let item_id = game.inventory[k];
        assert(inv[k as int] == item_id as int);
        assert(0 <= inv[k as int] < objs.len());
        assert(game@.entity_ok(item_id as int));
        let o = &game.objects[item_id];
        assert(objs[item_id as int] == game.objects@[item_id as int]@);
        let add_amt: i32 = match &o.equipment {
            Some(e) => if e.is_equipped {
                match kind {
                    BonusKind::Power => e.power_bonus,
                    BonusKind::Defense => e.defense_bonus,
                    BonusKind::MaxHp => e.max_hp_bonus,
                }
            } else {
                0
            },
            None => 0,
        };
        assert(add_amt == equip_bonus(objs[inv[k as int]], kind));
        assert(0 <= add_amt <= BONUS_LIMIT);
        bonus = bonus + add_amt;
        proof {
            assert(inv.subrange(0, k + 1).drop_last() =~= inv.subrange(0, k as int));
            assert(inv.subrange(0, k + 1).last() == inv[k as int]);
        }
        k = k + 1;
    }
    proof {
        assert(inv.subrange(0, inv.len() as int) =~= inv);
        assert(inv.len() <= INVENTORY_CAPACITY);
        assert(bonus <= BONUS_LIMIT * INVENTORY_CAPACITY) by (nonlinear_arith)
            requires
                bonus <= BONUS_LIMIT * inv.len(),
                inv.len() <= INVENTORY_CAPACITY,
                BONUS_LIMIT > 0,
        ;
    }
    base + bonus
}

/// The entity's attack power: base power plus equipped power bonuses.
pub fn full_power(id: usize, game: &Game) -> (r: i32)
    requires
        game@.wf(),
        id < game@.objects.len(),
    ensures
        r == spec_full_stat(game@, id as int, BonusKind::Power),
        0 <= r <= 100 + 20 * LEVEL_LIMIT + EQUIP_TOTAL_LIMIT,
{
    full_stat(id, game, BonusKind::Power)
}

/// The entity's defense: base defense plus equipped defense bonuses.
pub fn full_defense(id: usize, game: &Game) -> (r: i32)
    requires
        game@.wf(),
        id < game@.objects.len(),
    ensures
        r == spec_full_stat(game@, id as int, BonusKind::Defense),
        0 <= r <= 100 + 20 * LEVEL_LIMIT + EQUIP_TOTAL_LIMIT,
{
    full_stat(id, game, BonusKind::Defense)
}

/// The entity's maximum hit points: base plus equipped bonuses.
pub fn full_max_hp(id: usize, game: &Game) -> (r: i32)
    requires
        game@.wf(),
        id < game@.objects.len(),
    ensures
        r == spec_full_stat(game@, id as int, BonusKind::MaxHp),
        0 <= r <= 100 + 20 * LEVEL_LIMIT + EQUIP_TOTAL_LIMIT,
{
    full_stat(id, game, BonusKind::MaxHp)
}

/// Equality of slots.
pub fn slot_eq(a: Slot, b: Slot) -> (r: bool)
    ensures
        r == (a == b),
{
    match (a, b) {
        (Slot::RightHand, Slot::RightHand) => true,
        (Slot::LeftHand, Slot::LeftHand) => true,
        _ => false,
    }
}


/// Checks identity and per-entity conditions on an untrusted snapshot;
/// `true` guarantees `ids_ok`, `player_ok` and `entities_ok`.
fn check_entities(game: &Game) -> (r: bool)
    ensures
        r ==> game@.ids_ok() && game@.player_ok() && game@.entities_ok(),
{
    let ghost g = game@;
    let n = game.objects.len();
    proof {
        assert(g.objects.len() == game.objects@.len());
    }
    if game.player_id >= n || game.stairs_id >= n {
        return false;
    }
    proof {
        assert(g.objects[g.player_id] == game.objects@[game.player_id as int]@);
    }
    let p = &game.objects[game.player_id];
    let alive_needed = game.state == GameState::Playing;
    match &p.fighter {
        Some(f) => {
            let death_ok = match f.death {
                Some(DeathCallback::Player) => true,
                _ => false,
            };
            if !death_ok || (alive_needed && f.hp < 1) {
                return false;
            }
        },
        None => {
            return false;
        },
    }
    if p.level < 1 || p.ai.is_some() {
        return false;
    }
    let mut i: usize = 0;
    while i < n
        invariant
            g == game@,
            n == g.objects.len(),
            g.objects.len() == game.objects@.len(),
            0 <= i <= n,
            0 <= g.player_id < n,
            forall|k: int| 0 <= k < i ==> g.entity_ok(k),
        decreases n - i,
    {
        proof {
            assert(g.objects[i as int] == game.objects@[i as int]@);
        }
        let o = &game.objects[i];
        if o.x < 1 || o.x > MAP_WIDTH - 2 || o.y < 1 || o.y > MAP_HEIGHT - 2 {
            return false;
        }
        match &o.fighter {
            Some(f) => {
                if o.level < 0 || o.level > LEVEL_LIMIT {
                    return false;
                }
                if f.base_max_hp < 1 || f.base_max_hp > 100 + 20 * o.level {
                    return false;
                }
                if f.base_power < 0 || f.base_power > 10 + o.level {
                    return false;
                }
                if f.base_defense < 0 || f.base_defense > 10 + o.level {
                    return false;
                }
                if f.xp < 0 || f.hp > f.base_max_hp + EQUIP_TOTAL_LIMIT {
                    return false;
                }
                match f.death {
                    None => {
                        return false;
                    },
                    Some(DeathCallback::Player) => {
                        if i != game.player_id {
                            return false;
                        }
                    },
                    Some(DeathCallback::Monster) => {
                        if i != game.player_id && f.hp < 1 {
                            return false;
                        }
                    },
                }
            },
            None => {},
        }
        match &o.equipment {
            Some(e) => {
                if e.power_bonus < 0 || e.power_bonus > BONUS_LIMIT || e.defense_bonus < 0
                    || e.defense_bonus > BONUS_LIMIT || e.max_hp_bonus < 0 || e.max_hp_bonus
                    > BONUS_LIMIT {
                    return false;
                }
            },
            None => {},
        }
        match &o.ai {
            Some(a) => {
                if a.monster_id != i || o.fighter.is_none() || i == game.player_id {
                    return false;
                }
                match a.old_ai {
                    Some(MonsterAIType::Basic) => {},
                    None => {},
                    Some(MonsterAIType::Confused { .. }) => {
                        return false;
                    },
                }
                match a.ai_type {
                    MonsterAIType::Confused { num_turns } => {
                        if num_turns < 0 {
                            return false;
                        }
                    },
                    MonsterAIType::Basic => {},
                }
            },
            None => {},
        }
        proof {
            assert(g.entity_ok(i as int));
        }
        i = i + 1;
    }
    true
}

/// Checks the inventory discipline on an untrusted snapshot; `true`
/// guarantees `inventory_ok`.
fn check_inventory(game: &Game) -> (r: bool)
    ensures
        r ==> game@.inventory_ok(),
{
    let ghost g = game@;
    proof {
        assert(g.objects.len() == game.objects@.len());
        assert(g.inventory.len() == game.inventory@.len());
    }
    if game.inventory.len() > INVENTORY_CAPACITY {
        return false;
    }
    let mut k: usize = 0;
    while k < game.inventory.len()
        invariant
            g == game@,
            g.objects.len() == game.objects@.len(),
            g.inventory.len() == game.inventory@.len(),
            0 <= k <= g.inventory.len(),
            forall|k2: int|
                0 <= k2 < k ==> 0 <= #[trigger] g.inventory[k2] < g.objects.len(),
            forall|k2: int|
                0 <= k2 < k ==> g.objects[#[trigger] g.inventory[k2]].fighter is None
                    && g.objects[g.inventory[k2]].ai is None,
            forall|k1: int, k2: int|
                #![trigger g.inventory[k1], g.inventory[k2]]
                0 <= k1 < k2 < k ==> g.inventory[k1] != g.inventory[k2],
        decreases g.inventory.len() - k,
    {
        proof {
            assert(g.inventory[k as int] == game.inventory@[k as int] as int);
        }
        let id = game.inventory[k];
        if id >= game.objects.len() {
            return false;
        }
        proof {
            assert(g.objects[id as int] == game.objects@[id as int]@);
        }
        if game.objects[id].fighter.is_some() || game.objects[id].ai.is_some() {
            return false;
        }
        let mut k2: usize = 0;
        while k2 < k
            invariant
                g == game@,
                g.inventory.len() == game.inventory@.len(),
                0 <= k2 <= k < g.inventory.len(),
                g.inventory[k as int] == id as int,
                forall|k3: int| 0 <= k3 < k2 ==> #[trigger] g.inventory[k3] != id as int,
            decreases k - k2,
        {
            proof {
                assert(g.inventory[k2 as int] == game.inventory@[k2 as int] as int);
            }
            if game.inventory[k2] == id {
                return false;
            }
            k2 = k2 + 1;
        }
        k = k + 1;
    }
    // equipped entities sit in the inventory, at most one per slot
    let ghost mut occupied_right: Option<int> = None;
    let ghost mut occupied_left: Option<int> = None;
    let mut has_right = false;
    let mut has_left = false;
    let n = game.objects.len();
    let mut i: usize = 0;
    while i < n
        invariant
            g == game@,
            n == g.objects.len(),
            g.objects.len() == game.objects@.len(),
            g.inventory.len() == game.inventory@.len(),
            0 <= i <= n,
            forall|j: int|
                0 <= j < i && is_equipped_ent(#[trigger] g.objects[j]) ==> g.inventory.contains(j),
            has_right == (occupied_right is Some),
            has_left == (occupied_left is Some),
            occupied_right matches Some(ri) ==> 0 <= ri < i && is_equipped_ent(g.objects[ri])
                && slot_of(g.objects[ri]) == Slot::RightHand,
            occupied_left matches Some(li) ==> 0 <= li < i && is_equipped_ent(g.objects[li])
                && slot_of(g.objects[li]) == Slot::LeftHand,
            forall|j: int|
                0 <= j < i && is_equipped_ent(#[trigger] g.objects[j]) && slot_of(g.objects[j])
                    == Slot::RightHand ==> occupied_right == Some(j),
            forall|j: int|
                0 <= j < i && is_equipped_ent(#[trigger] g.objects[j]) && slot_of(g.objects[j])
                    == Slot::LeftHand ==> occupied_left == Some(j),
        decreases n - i,
    {
        proof {
            assert(g.objects[i as int] == game.objects@[i as int]@);
        }
        let equipped_slot = match &game.objects[i].equipment {
            Some(e) => if e.is_equipped {
                Some(e.slot)
            } else {
                None
            },
            None => None,
        };
        if let Some(slot) = equipped_slot {
            // membership scan
            let mut k: usize = 0;
            let mut found = false;
            while k < game.inventory.len()
                invariant
                    g == game@,
                    g.inventory.len() == game.inventory@.len(),
                    0 <= k <= g.inventory.len(),
                    found ==> g.inventory.contains(i as int),
                decreases g.inventory.len() - k,
            {
                proof {
                    assert(g.inventory[k as int] == game.inventory@[k as int] as int);
                }
                if game.inventory[k] == i {
                    found = true;
                }
                k = k + 1;
            }
            if !found {
                return false;
            }
            match slot {
                Slot::RightHand => {
                    if has_right {
                        return false;
                    }
                    has_right = true;
                    proof {
                        occupied_right = Some(i as int);
                    }
                },
                Slot::LeftHand => {
                    if has_left {
                        return false;
                    }
                    has_left = true;
                    proof {
                        occupied_left = Some(i as int);
                    }
                },
            }
        }
        i = i + 1;
    }
    proof {
        assert forall|a: int, b: int|
            #![trigger g.objects[a].equipment, g.objects[b].equipment]
            0 <= a < g.objects.len() && 0 <= b < g.objects.len() && a != b && is_equipped_ent(
                g.objects[a],
            ) && is_equipped_ent(g.objects[b]) implies slot_of(g.objects[a]) != slot_of(
            g.objects[b],
        ) by {
            if slot_of(g.objects[a]) == slot_of(g.objects[b]) {
                match slot_of(g.objects[a]) {
                    Slot::RightHand => {
                        assert(occupied_right == Some(a) && occupied_right == Some(b));
                    },
                    Slot::LeftHand => {
                        assert(occupied_left == Some(a) && occupied_left == Some(b));
                    },
                }
            }
        }
    }
    true
}

/// Checks the experience cap on an untrusted snapshot; `true`
/// guarantees that the experience in play respects the cap. The check
/// refuses degenerate arenas beyond any size the engine produces.
fn check_experience(game: &Game) -> (r: bool)
    requires
        game@.ids_ok(),
        game@.player_ok(),
        game@.entities_ok(),
    ensures
        r ==> xp_potential(game@) <= XP_POTENTIAL_CAP,
{
    let ghost g = game@;
    let n = game.objects.len();
    proof {
        assert(g.objects.len() == game.objects@.len());
        assert forall|i: int|
            0 <= i < g.objects.len() implies match (#[trigger] g.objects[i]).fighter {
            Some(ff) => ff.xp >= 0,
            None => true,
        } by {
            assert(g.entity_ok(i));
        }
    }
    if n > 100_000 {
        return false;
    }
    let mut total: i64 = 0;
    let mut i: usize = 0;
    while i < n
        invariant
            g == game@,
            n == g.objects.len() <= 100_000,
            g.objects.len() == game.objects@.len(),
            0 <= g.player_id < n,
            0 <= i <= n,
            forall|k: int|
                0 <= k < g.objects.len() ==> match (#[trigger] g.objects[k]).fighter {
                    Some(ff) => ff.xp >= 0,
                    None => true,
                },
            total == monsters_xp(g.objects.subrange(0, i as int), g.player_id),
            0 <= total <= 0x8000_0000 * (i as int),
        decreases n - i,
    {
        proof {
            assert(g.objects[i as int] == game.objects@[i as int]@);
            assert(g.objects.subrange(0, i + 1).drop_last() =~= g.objects.subrange(0, i as int));
            assert(g.objects.subrange(0, i + 1).last() == g.objects[i as int]);
        }
        if i != game.player_id {
            match &game.objects[i].fighter {
                Some(f) => {
                    total = total + f.xp as i64;
                },
                None => {},
            }
        }
        i = i + 1;
    }
    proof {
        assert(g.objects.subrange(0, g.objects.len() as int) =~= g.objects);
    }
    proof {
        assert(g.objects[g.player_id] == game.objects@[game.player_id as int]@);
    }
    let player_xp: i32 = match &game.objects[game.player_id].fighter {
        Some(f) => f.xp,
        None => {
            proof {
                assert(false);
            }
            0
        },
    };
    player_xp as i64 + total <= XP_POTENTIAL_CAP as i64
}

/// Checks the whole well-formedness invariant on an untrusted snapshot
/// — one a persistence layer read back, for instance. A `true` answer
/// guarantees the invariant every engine operation requires; the check
/// is conservative and refuses degenerate snapshots (such as arenas
/// beyond any size the engine produces) that it cannot vouch for.
pub fn is_well_formed(game: &Game) -> (r: bool)
    ensures
        r ==> game@.wf(),
{
    if !check_entities(game) {
        return false;
    }
    if !check_inventory(game) {
        return false;
    }
    if !crate::gamemap::check_map(&game.map) {
        return false;
    }
    proof {
        assert(game@.messages.len() == game.messages@.len());
    }
    if game.messages.len() > MSG_HEIGHT {
        return false;
    }
    if game.dungeon_level < 1 {
        return false;
    }
    if !check_experience(game) {
        return false;
    }
    true
}

} // verus!