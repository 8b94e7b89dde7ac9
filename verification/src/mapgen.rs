//! The dungeon generator: depth-scaled spawn tables, the monster and
//! item catalogs, room population, and level construction. Generated
//! rooms never intersect (boundaries included), consecutive rooms are
//! connected by carved corridors, and a level transition rebuilds the
//! arena from the carried-over player and inventory alone.

use vstd::prelude::*;
use crate::colors;
use crate::colors::{white_v, violet_v, light_yellow_v, sky_v, darker_orange_v,
    desaturated_green_v, darker_green_v};
use crate::consts::{MAP_WIDTH, MAP_HEIGHT, ROOM_MIN_SIZE, ROOM_MAX_SIZE, MAX_ROOMS,
    FRESH_XP_LIMIT, XP_POTENTIAL_CAP};
use crate::entity::{DeathCallback, Equipment, Fighter, Item, MonsterAI, MonsterAIType, Object,
    ObjectV, Slot};
use crate::game::{Game, GameV, is_blocked, objs_view, inv_view, monsters_xp, xp_contrib,
    lemma_monsters_xp_push, lemma_monsters_xp_bounds, xp_potential};
use crate::gamemap::{Grid, Tile, grid_view, map_wf, map_dims_ok, in_map, walkable, room_interior,
    carved, h_tunnel_cell, v_tunnel_cell, create_room, create_h_tunnel, create_v_tunnel,
    blocked_map};
use crate::geom::Rect;
use crate::reach::{connected, lemma_connected_refl, lemma_connected_trans, lemma_connected_sym,
    lemma_connected_mono, lemma_h_line_connected, lemma_v_line_connected, lemma_connected_chain};
use crate::rng::{rand_range, rand_range_u32, rand_bool, sample_weighted, sum_weights};

verus! {

/// The effective value of a depth table at `level`: the value of the
/// last entry whose unlock depth is at most `level`, or zero.
pub open spec fn spec_from_dungeon_level(table: Seq<(u32, i32)>, level: int) -> u32
    decreases table.len(),
{
    if table.len() == 0 {
        0
    } else if level >= table.last().1 {
        table.last().0
    } else {
        spec_from_dungeon_level(table.drop_last(), level)
    }
}

/// Looks up a depth table: the value of the last entry unlocked at
/// `level`, or zero when none is.
pub fn from_dungeon_level(table: &Vec<(u32, i32)>, level: i32) -> (r: u32)
    ensures
        r == spec_from_dungeon_level(table@, level as int),
{
    let mut k = table.len();
    proof {
        assert(table@.subrange(0, table@.len() as int) =~= table@);
    }
    while k > 0
        invariant
            k <= table@.len(),
            spec_from_dungeon_level(table@, level as int) == spec_from_dungeon_level(
                table@.subrange(0, k as int),
                level as int,
            ),
        decreases k,
    {
        let (value, table_level) = table[k - 1];
        proof {
            assert(table@.subrange(0, k as int).last() == table@[k - 1]);
            assert(table@.subrange(0, k as int).drop_last() =~= table@.subrange(0, k - 1));
        }
        if level >= table_level {
            return value;
        }
        k = k - 1;
    }
    proof {
        assert(table@.subrange(0, 0) =~= Seq::<(u32, i32)>::empty());
    }
    0
}


/// Appends one entity to the arena.
pub fn push_object(objects: &mut Vec<Object>, o: Object)
    ensures
        objs_view(final(objects)@) == objs_view(old(objects)@).push(o@),
        final(objects)@.len() == old(objects)@.len() + 1,
{
    let ghost ov = o@;
    objects.push(o);
    proof {
        assert forall|j: int| 0 <= j < objs_view(objects@).len() implies #[trigger] objs_view(
            objects@,
        )[j] == objs_view(old(objects)@).push(ov)[j] by {
            assert(objs_view(objects@)[j] == objects@[j]@);
            if j < objects@.len() - 1 {
                assert(objs_view(old(objects)@)[j] == old(objects)@[j]@);
            }
        }
        assert(objs_view(objects@) =~= objs_view(old(objects)@).push(ov));
    }
}

/// The orc template, owning the AI back-reference `id`.
pub open spec fn orc_v(id: usize, x: i32, y: i32) -> ObjectV {
    ObjectV {
        x,
        y,
        glyph: 'o',
        name: "orc"@,
        color: desaturated_green_v(),
        blocks: true,
        always_visible: false,
        on_ground: true,
        level: 0,
        fighter: Some(
            Fighter {
                base_max_hp: 20,
                hp: 20,
                base_defense: 0,
                base_power: 4,
                xp: 35,
                death: Some(DeathCallback::Monster),
            },
        ),
        ai: Some(MonsterAI { monster_id: id, old_ai: None, ai_type: MonsterAIType::Basic }),
        item: None,
        equipment: None,
    }
}

/// The troll template, owning the AI back-reference `id`.
pub open spec fn troll_v(id: usize, x: i32, y: i32) -> ObjectV {
    ObjectV {
        x,
        y,
        glyph: 'T',
        name: "troll"@,
        color: darker_green_v(),
        blocks: true,
        always_visible: false,
        on_ground: true,
        level: 0,
        fighter: Some(
            Fighter {
                base_max_hp: 30,
                hp: 30,
                base_defense: 2,
                base_power: 8,
                xp: 100,
                death: Some(DeathCallback::Monster),
            },
        ),
        ai: Some(MonsterAI { monster_id: id, old_ai: None, ai_type: MonsterAIType::Basic }),
        item: None,
        equipment: None,
    }
}

/// A consumable item template: a glyph, a name, a color and an effect.
pub open spec fn consumable_v(
    x: i32,
    y: i32,
    glyph: char,
    name: Seq<char>,
    color: crate::entity::Color,
    effect: Item,
) -> ObjectV {
    ObjectV {
        x,
        y,
        glyph,
        name,
        color,
        blocks: false,
        always_visible: false,
        on_ground: true,
        level: 0,
        fighter: None,
        ai: None,
        item: Some(effect),
        equipment: None,
    }
}

/// An equipment template: pure equipment carries the no-effect item tag.
pub open spec fn equipment_v(
    x: i32,
    y: i32,
    glyph: char,
    name: Seq<char>,
    color: crate::entity::Color,
    slot: Slot,
    power_bonus: i32,
    defense_bonus: i32,
) -> ObjectV {
    ObjectV {
        x,
        y,
        glyph,
        name,
        color,
        blocks: false,
        always_visible: false,
        on_ground: true,
        level: 0,
        fighter: None,
        ai: None,
        item: Some(Item::Nothing),
        equipment: Some(
            Equipment { slot, is_equipped: false, power_bonus, defense_bonus, max_hp_bonus: 0 },
        ),
    }
}

/// An entity freshly spawned into a room by the generator: one of the
/// two monster kinds (with its AI back-reference equal to its id) or
/// one of the six item and equipment kinds, standing inside the room.
#[verifier::opaque]
pub open spec fn spawned_ok(o: ObjectV, id: usize, room: Rect) -> bool {
    &&& room_interior(room, o.x as int, o.y as int)
    &&& room.x1 + 1 <= o.x <= room.x2 - 2
    &&& room.y1 + 1 <= o.y <= room.y2 - 2
    &&& {
        ||| o == orc_v(id, o.x, o.y)
        ||| o == troll_v(id, o.x, o.y)
        ||| o == consumable_v(o.x, o.y, '!', "healing potion"@, violet_v(), Item::Heal)
        ||| o == consumable_v(
            o.x,
            o.y,
            '#',
            "scroll of lightning bolt"@,
            light_yellow_v(),
            Item::Lightning,
        )
        ||| o == consumable_v(o.x, o.y, '#', "scroll of fireball"@, light_yellow_v(), Item::Fireball)
        ||| o == consumable_v(
            o.x,
            o.y,
            '#',
            "scroll of confusion"@,
            light_yellow_v(),
            Item::Confuse,
        )
        ||| o == equipment_v(o.x, o.y, '/', "sword"@, sky_v(), Slot::RightHand, 3, 0)
        ||| o == equipment_v(o.x, o.y, '[', "shield"@, darker_orange_v(), Slot::LeftHand, 0, 1)
    }
}

/// A generated room's shape: within the map with a one-tile margin,
/// and wide and tall enough to hold its center strictly inside.
pub open spec fn room_shape_ok(r: Rect) -> bool {
    &&& 0 <= r.x1
    &&& r.x1 + ROOM_MIN_SIZE <= r.x2 <= r.x1 + ROOM_MAX_SIZE
    &&& r.x2 <= MAP_WIDTH - 2
    &&& 0 <= r.y1
    &&& r.y1 + ROOM_MIN_SIZE <= r.y2 <= r.y1 + ROOM_MAX_SIZE
    &&& r.y2 <= MAP_HEIGHT - 2
}

/// The center of a rectangle, as the generator computes it.
pub open spec fn rect_center(r: Rect) -> (int, int) {
    ((r.x1 + r.x2) / 2, (r.y1 + r.y2) / 2)
}

/// The spawn draw landed on a clear cell: the tile is walkable and no
/// blocking entity among those already present (lower ids) stands
/// there. Draws onto blocked or occupied cells are skipped, not
/// retried.
pub open spec fn placement_clear(m: Seq<Seq<Tile>>, objs: Seq<ObjectV>, j: int) -> bool {
    &&& !m[objs[j].x as int][objs[j].y as int].blocked
    &&& forall|k: int|
        0 <= k < j ==> !((#[trigger] objs[k]).blocks && objs[k].x == objs[j].x && objs[k].y
            == objs[j].y)
}

/// Populates a room: a depth-scaled number of monsters and items, each
/// of a depth-weighted random kind, each placed on a random unblocked
/// interior cell (blocked picks are skipped, not retried). Appends at
/// most eight entities, every one a catalog template standing in the
/// room, monsters carrying at most 100 experience each.
pub fn place_objects(room: Rect, map: &Grid, objects: &mut Vec<Object>, level: i32)
    requires
        map_wf(grid_view(*map)),
        room_shape_ok(room),
        1 <= level,
        old(objects)@.len() <= 100_000,
    ensures
        old(objects)@.len() <= final(objects)@.len() <= old(objects)@.len() + 8,
        objs_view(final(objects)@).subrange(0, old(objects)@.len() as int) == objs_view(
            old(objects)@,
        ),
        forall|j: int|
            old(objects)@.len() <= j < final(objects)@.len() ==> spawned_ok(
                #[trigger] objs_view(final(objects)@)[j],
                j as usize,
                room,
            ),
        forall|j: int|
            old(objects)@.len() <= j < final(objects)@.len() ==> placement_clear(
                grid_view(*map),
                objs_view(final(objects)@),
                j,
            ),
{
    let ghost n0 = objects@.len() as int;
    let ghost orig = objs_view(objects@);
    let max_monsters_table: Vec<(u32, i32)> = vec![(2u32, 1i32), (3u32, 4i32), (5u32, 6i32)];
    let max_monsters = from_dungeon_level(&max_monsters_table, level);
    proof {
        reveal_with_fuel(spec_from_dungeon_level, 4);
        assert(max_monsters_table@.drop_last() =~= seq![(2u32, 1i32), (3u32, 4i32)]);
        assert(max_monsters_table@.drop_last().drop_last() =~= seq![(2u32, 1i32)]);
        assert(2 <= max_monsters <= 5);
    }
    let num_monsters = rand_range_u32(0, max_monsters);
    let troll_table: Vec<(u32, i32)> = vec![(15u32, 3i32), (30u32, 5i32), (60u32, 7i32)];
    let troll_chance = from_dungeon_level(&troll_table, level);
    proof {
        reveal_with_fuel(spec_from_dungeon_level, 4);
        assert(troll_table@.drop_last() =~= seq![(15u32, 3i32), (30u32, 5i32)]);
        assert(troll_table@.drop_last().drop_last() =~= seq![(15u32, 3i32)]);
        assert(troll_table@.drop_last().drop_last().drop_last() =~= Seq::<(u32, i32)>::empty());
        assert(troll_chance <= 60);
    }
    let mut monster_weights: Vec<u32> = Vec::new();
    monster_weights.push(80);
    monster_weights.push(troll_chance);
    proof {
        reveal_with_fuel(sum_weights, 4);
        assert(monster_weights@.drop_last() =~= seq![80u32]);
        assert(monster_weights@.drop_last().drop_last() =~= Seq::<u32>::empty());
        assert(sum_weights(monster_weights@) == 80 + troll_chance);
    }
    let mut placed: u32 = 0;
    while placed < num_monsters
        invariant
            map_wf(grid_view(*map)),
            room_shape_ok(room),
            num_monsters <= 4,
            placed <= num_monsters,
            sum_weights(monster_weights@) > 0,
            sum_weights(monster_weights@) <= 200,
            monster_weights@.len() == 2,
            0 <= n0 <= objects@.len() <= n0 + placed,
            objs_view(objects@).subrange(0, n0) == orig,
            forall|j: int|
                n0 <= j < objects@.len() ==> spawned_ok(
                    #[trigger] objs_view(objects@)[j],
                    j as usize,
                    room,
                ),
            forall|j: int|
                n0 <= j < objects@.len() ==> placement_clear(
                    grid_view(*map),
                    objs_view(objects@),
                    j,
                ),
        decreases num_monsters - placed,
    {
        let x = rand_range(room.x1 + 1, room.x2 - 1);
        let y = rand_range(room.y1 + 1, room.y2 - 1);
        if !is_blocked(x, y, map, objects) {
            let monster_id = objects.len();
            let ghost pre_objs = objects@;  
            let pick = sample_weighted(&monster_weights);
            let monster = match pick {
                Some(0) => {
                    let mut orc = Object::new(x, y, 'o', "orc", colors::desaturated_green(), true);
                    orc.fighter = Some(
                        Fighter {
                            hp: 20,
                            base_max_hp: 20,
                            base_defense: 0,
                            base_power: 4,
                            xp: 35,
                            death: Some(DeathCallback::Monster),
                        },
                    );
                    orc.ai = Some(
                        MonsterAI {
                            monster_id,
                            old_ai: None,
                            ai_type: MonsterAIType::Basic,
                        },
                    );
                    proof {
                        assert(orc@ == orc_v(monster_id, x, y));
                    }
                    orc
                },
                _ => {
                    let mut troll = Object::new(x, y, 'T', "troll", colors::darker_green(), true);
                    troll.fighter = Some(
                        Fighter {
                            hp: 30,
                            base_max_hp: 30,
                            base_defense: 2,
                            base_power: 8,
                            xp: 100,
                            death: Some(DeathCallback::Monster),
                        },
                    );
                    troll.ai = Some(
                        MonsterAI {
                            monster_id,
                            old_ai: None,
                            ai_type: MonsterAIType::Basic,
                        },
                    );
                    proof {
                        assert(troll@ == troll_v(monster_id, x, y));
                    }
                    troll
                },
            };
            let ghost mv = monster@;
            proof {
                reveal(spawned_ok);
                assert(spawned_ok(mv, monster_id, room));
            }
            push_object(objects, monster);
            proof {
                assert(objs_view(objects@) == objs_view(pre_objs).push(mv));
                assert forall|j: int|
                    n0 <= j < objs_view(objects@).len() implies spawned_ok(
                    #[trigger] objs_view(objects@)[j],
                    j as usize,
                    room,
                ) by {
                    if j < objs_view(objects@).len() - 1 {
                        assert(objs_view(objects@)[j] == objs_view(pre_objs)[j]);
                    } else {
                        assert(objs_view(objects@)[j] == mv);
                    }
                }
                assert(objs_view(objects@).subrange(0, n0) =~= orig);
                assert forall|j: int|
                    n0 <= j < objs_view(objects@).len() implies placement_clear(
                    grid_view(*map),
                    objs_view(objects@),
                    j,
                ) by {
                    if j < objs_view(objects@).len() - 1 {
                        assert(placement_clear(grid_view(*map), objs_view(pre_objs), j));
                        assert forall|k: int|
                            0 <= k < j implies !((#[trigger] objs_view(objects@)[k]).blocks
                            && objs_view(objects@)[k].x == objs_view(objects@)[j].x && objs_view(
                            objects@,
                        )[k].y == objs_view(objects@)[j].y) by {
                            assert(objs_view(objects@)[k] == objs_view(pre_objs)[k]);
                        }
                    } else {
                        assert(objs_view(objects@)[j] == mv);
                        assert forall|k: int|
                            0 <= k < j implies !((#[trigger] objs_view(objects@)[k]).blocks
                            && objs_view(objects@)[k].x == mv.x && objs_view(objects@)[k].y
                            == mv.y) by {
                            assert(objs_view(objects@)[k] == objs_view(pre_objs)[k]);
                        }
                    }
                }
            }
        }
        placed = placed + 1;
    }
    let max_items_table: Vec<(u32, i32)> = vec![(1u32, 1i32), (2u32, 4i32)];
    let max_items = from_dungeon_level(&max_items_table, level);
    proof {
        reveal_with_fuel(spec_from_dungeon_level, 3);
        assert(max_items_table@.drop_last() =~= seq![(1u32, 1i32)]);
        assert(1 <= max_items <= 2);
    }
    let num_items = rand_range_u32(0, max_items);
    let t25_4: Vec<(u32, i32)> = vec![(25u32, 4i32)];
    let t25_6: Vec<(u32, i32)> = vec![(25u32, 6i32)];
    let t10_2: Vec<(u32, i32)> = vec![(10u32, 2i32)];
    let t5_4: Vec<(u32, i32)> = vec![(5u32, 4i32)];
    let t15_8: Vec<(u32, i32)> = vec![(15u32, 8i32)];
    let w_lightning = from_dungeon_level(&t25_4, level);
    let w_fireball = from_dungeon_level(&t25_6, level);
    let w_confuse = from_dungeon_level(&t10_2, level);
    let w_sword = from_dungeon_level(&t5_4, level);
    let w_shield = from_dungeon_level(&t15_8, level);
    proof {
        reveal_with_fuel(spec_from_dungeon_level, 2);
        assert(t25_4@.drop_last() =~= Seq::<(u32, i32)>::empty());
        assert(t25_6@.drop_last() =~= Seq::<(u32, i32)>::empty());
        assert(t10_2@.drop_last() =~= Seq::<(u32, i32)>::empty());
        assert(t5_4@.drop_last() =~= Seq::<(u32, i32)>::empty());
        assert(t15_8@.drop_last() =~= Seq::<(u32, i32)>::empty());
        assert(w_lightning <= 25 && w_fireball <= 25 && w_confuse <= 10 && w_sword <= 5
            && w_shield <= 15);
    }
    let mut item_weights: Vec<u32> = Vec::new();
    item_weights.push(35);
    item_weights.push(w_lightning);
    item_weights.push(w_fireball);
    item_weights.push(w_confuse);
    item_weights.push(w_sword);
    item_weights.push(w_shield);
    proof {
        reveal_with_fuel(sum_weights, 8);
        assert(item_weights@.drop_last() =~= seq![35u32, w_lightning, w_fireball, w_confuse,
            w_sword]);
        assert(item_weights@.drop_last().drop_last() =~= seq![35u32, w_lightning, w_fireball,
            w_confuse]);
        assert(item_weights@.drop_last().drop_last().drop_last() =~= seq![35u32, w_lightning,
            w_fireball]);
        assert(item_weights@.drop_last().drop_last().drop_last().drop_last() =~= seq![35u32,
            w_lightning]);
        assert(item_weights@.drop_last().drop_last().drop_last().drop_last().drop_last() =~= seq![
            35u32]);
        assert(item_weights@.drop_last().drop_last().drop_last().drop_last().drop_last().drop_last()
            =~= Seq::<u32>::empty());
        assert(sum_weights(item_weights@) == 35 + w_lightning + w_fireball + w_confuse + w_sword
            + w_shield);
    }
    let ghost n1 = objects@.len() as int;
    let mut placed_items: u32 = 0;
    while placed_items < num_items
        invariant
            map_wf(grid_view(*map)),
            room_shape_ok(room),
            num_items <= 1,
            placed_items <= num_items,
            sum_weights(item_weights@) > 0,
            sum_weights(item_weights@) <= 200,
            item_weights@.len() == 6,
            0 <= n0 <= n1 <= objects@.len() <= n1 + placed_items,
            objs_view(objects@).subrange(0, n0) == orig,
            forall|j: int|
                n0 <= j < objects@.len() ==> spawned_ok(
                    #[trigger] objs_view(objects@)[j],
                    j as usize,
                    room,
                ),
            forall|j: int|
                n0 <= j < objects@.len() ==> placement_clear(
                    grid_view(*map),
                    objs_view(objects@),
                    j,
                ),
        decreases num_items - placed_items,
    {
        let x = rand_range(room.x1 + 1, room.x2 - 1);
        let y = rand_range(room.y1 + 1, room.y2 - 1);
        if !is_blocked(x, y, map, objects) {
            let ghost pre_objs = objects@;  
            let pick = sample_weighted(&item_weights);
            let item = match pick {
                Some(1) => {
                    let mut o = Object::new(
                        x,
                        y,
                        '#',
                        "scroll of lightning bolt",
                        colors::light_yellow(),
                        false,
                    );
                    o.item = Some(Item::Lightning);
                    o
                },
                Some(2) => {
                    let mut o = Object::new(
                        x,
                        y,
                        '#',
                        "scroll of fireball",
                        colors::light_yellow(),
                        false,
                    );
                    o.item = Some(Item::Fireball);
                    o
                },
                Some(3) => {
                    let mut o = Object::new(
                        x,
                        y,
                        '#',
                        "scroll of confusion",
                        colors::light_yellow(),
                        false,
                    );
                    o.item = Some(Item::Confuse);
                    o
                },
                Some(4) => {
                    let mut o = Object::new(x, y, '/', "sword", colors::sky(), false);
                    o.equipment = Some(
                        Equipment {
                            slot: Slot::RightHand,
                            is_equipped: false,
                            power_bonus: 3,
                            defense_bonus: 0,
                            max_hp_bonus: 0,
                        },
                    );
                    o.item = Some(Item::Nothing);
                    o
                },
                Some(5) => {
                    let mut o = Object::new(x, y, '[', "shield", colors::darker_orange(), false);
                    o.equipment = Some(
                        Equipment {
                            slot: Slot::LeftHand,
                            is_equipped: false,
                            power_bonus: 0,
                            defense_bonus: 1,
                            max_hp_bonus: 0,
                        },
                    );
                    o.item = Some(Item::Nothing);
                    o
                },
                _ => {
                    let mut o = Object::new(x, y, '!', "healing potion", colors::violet(), false);
                    o.item = Some(Item::Heal);
                    o
                },
            };
            let ghost iv = item@;
            proof {
                reveal(spawned_ok);
                assert(spawned_ok(iv, objects@.len() as usize, room));
            }
            push_object(objects, item);
            proof {
                assert(objs_view(objects@) == objs_view(pre_objs).push(iv));
                assert forall|j: int|
                    n0 <= j < objs_view(objects@).len() implies spawned_ok(
                    #[trigger] objs_view(objects@)[j],
                    j as usize,
                    room,
                ) by {
                    if j < objs_view(objects@).len() - 1 {
                        assert(objs_view(objects@)[j] == objs_view(pre_objs)[j]);
                    } else {
                        assert(objs_view(objects@)[j] == iv);
                    }
                }
                assert(objs_view(objects@).subrange(0, n0) =~= orig);
                assert forall|j: int|
                    n0 <= j < objs_view(objects@).len() implies placement_clear(
                    grid_view(*map),
                    objs_view(objects@),
                    j,
                ) by {
                    if j < objs_view(objects@).len() - 1 {
                        assert(placement_clear(grid_view(*map), objs_view(pre_objs), j));
                        assert forall|k: int|
                            0 <= k < j implies !((#[trigger] objs_view(objects@)[k]).blocks
                            && objs_view(objects@)[k].x == objs_view(objects@)[j].x && objs_view(
                            objects@,
                        )[k].y == objs_view(objects@)[j].y) by {
                            assert(objs_view(objects@)[k] == objs_view(pre_objs)[k]);
                        }
                    } else {
                        assert(objs_view(objects@)[j] == iv);
                        assert forall|k: int|
                            0 <= k < j implies !((#[trigger] objs_view(objects@)[k]).blocks
                            && objs_view(objects@)[k].x == iv.x && objs_view(objects@)[k].y
                            == iv.y) by {
                            assert(objs_view(objects@)[k] == objs_view(pre_objs)[k]);
                        }
                    }
                }
            }
        }
        placed_items = placed_items + 1;
    }
}

/// The stairs-down marker: no capabilities, never blocking, rendered
/// once explored even outside the current view.
pub open spec fn stairs_v(x: i32, y: i32) -> ObjectV {
    ObjectV {
        x,
        y,
        glyph: '<',
        name: "stairs"@,
        color: white_v(),
        blocks: false,
        always_visible: true,
        on_ground: true,
        level: 0,
        fighter: None,
        ai: None,
        item: None,
        equipment: None,
    }
}

/// Two rectangles intersect, boundaries included.
pub open spec fn rects_intersect(a: Rect, b: Rect) -> bool {
    a.x1 <= b.x2 && a.x2 >= b.x1 && a.y1 <= b.y2 && a.y2 >= b.y1
}

/// Every interior cell of the room is walkable.
pub open spec fn room_open(m: Seq<Seq<Tile>>, r: Rect) -> bool {
    forall|x: int, y: int| room_interior(r, x, y) ==> #[trigger] walkable(m, x, y)
}

/// Carving only ever opens cells.
pub open spec fn carve_mono(m1: Seq<Seq<Tile>>, m2: Seq<Seq<Tile>>) -> bool {
    forall|x: int, y: int| #[trigger] walkable(m1, x, y) ==> walkable(m2, x, y)
}

/// A sequence whose entries contribute nothing has zero monster
/// experience.
proof fn lemma_monsters_xp_zero(objs: Seq<ObjectV>, pid: int)
    requires
        forall|j: int| 0 <= j < objs.len() ==> xp_contrib(#[trigger] objs[j], j, pid) == 0,
    ensures
        monsters_xp(objs, pid) == 0,
    decreases objs.len(),
{
    if objs.len() > 0 {
        assert forall|j: int|
            0 <= j < objs.drop_last().len() implies xp_contrib(
            #[trigger] objs.drop_last()[j],
            j,
            pid,
        ) == 0 by {
            assert(objs.drop_last()[j] == objs[j]);
        }
        lemma_monsters_xp_zero(objs.drop_last(), pid);
    }
}

/// Monster experience of a sequence is bounded by that of a prefix plus
/// 100 per appended entry, when each appended entry contributes at most
/// 100.
proof fn lemma_monsters_xp_prefix(objs: Seq<ObjectV>, n1: int, pid: int)
    requires
        0 <= n1 <= objs.len(),
        forall|j: int| n1 <= j < objs.len() ==> 0 <= xp_contrib(#[trigger] objs[j], j, pid) <= 100,
    ensures
        monsters_xp(objs.subrange(0, n1), pid) <= monsters_xp(objs, pid) <= monsters_xp(
            objs.subrange(0, n1),
            pid,
        ) + 100 * (objs.len() - n1),
    decreases objs.len() - n1,
{
    if objs.len() == n1 {
        assert(objs.subrange(0, n1) =~= objs);
    } else {
        assert(objs.drop_last().subrange(0, n1) =~= objs.subrange(0, n1));
        assert forall|j: int|
            n1 <= j < objs.drop_last().len() implies 0 <= xp_contrib(
            #[trigger] objs.drop_last()[j],
            j,
            pid,
        ) <= 100 by {
            assert(objs.drop_last()[j] == objs[j]);
        }
        lemma_monsters_xp_prefix(objs.drop_last(), n1, pid);
        assert(0 <= xp_contrib(objs[objs.len() - 1], objs.len() - 1, pid) <= 100);
    }
}

/// The inventory after the arena rebuild: ids `1..=n` in order.
pub open spec fn inv_view_of(n: int) -> Seq<int> {
    Seq::new(n as nat, |k: int| k + 1)
}

/// The center of a well-shaped room lies strictly inside it.
proof fn lemma_center_in_interior(r: Rect)
    requires
        room_shape_ok(r),
    ensures
        room_interior(r, rect_center(r).0, rect_center(r).1),
        1 <= rect_center(r).0 <= MAP_WIDTH - 2,
        1 <= rect_center(r).1 <= MAP_HEIGHT - 2,
{
}

/// An L-shaped corridor, horizontal leg first: the row through `a` and
/// the column through `b` are walkable, so `a` connects to `b` via the
/// corner above `b`.
proof fn lemma_l_connected_h_first(m: Seq<Seq<Tile>>, ax: int, ay: int, bx: int, by: int)
    requires
        forall|cx: int|
            (if ax <= bx {
                ax <= cx <= bx
            } else {
                bx <= cx <= ax
            }) ==> #[trigger] walkable(m, cx, ay),
        forall|cy: int|
            (if ay <= by {
                ay <= cy <= by
            } else {
                by <= cy <= ay
            }) ==> #[trigger] walkable(m, bx, cy),
    ensures
        connected(m, (ax, ay), (bx, by)),
{
    let xlo = if ax <= bx { ax } else { bx };
    let xhi = if ax <= bx { bx } else { ax };
    lemma_h_line_connected(m, xlo, xhi, ay);
    if ax <= bx {
        // already from a to the corner
    } else {
        lemma_connected_sym(m, (xlo, ay), (xhi, ay));
    }
    assert(connected(m, (ax, ay), (bx, ay)));
    let ylo = if ay <= by { ay } else { by };
    let yhi = if ay <= by { by } else { ay };
    lemma_v_line_connected(m, ylo, yhi, bx);
    if ay <= by {
    } else {
        lemma_connected_sym(m, (bx, ylo), (bx, yhi));
    }
    assert(connected(m, (bx, ay), (bx, by)));
    lemma_connected_trans(m, (ax, ay), (bx, ay), (bx, by));
}

/// An L-shaped corridor, vertical leg first: the column through `a`
/// and the row through `b` are walkable, so `a` connects to `b` via
/// the corner below `a`.
proof fn lemma_l_connected_v_first(m: Seq<Seq<Tile>>, ax: int, ay: int, bx: int, by: int)
    requires
        forall|cy: int|
            (if ay <= by {
                ay <= cy <= by
            } else {
                by <= cy <= ay
            }) ==> #[trigger] walkable(m, ax, cy),
        forall|cx: int|
            (if ax <= bx {
                ax <= cx <= bx
            } else {
                bx <= cx <= ax
            }) ==> #[trigger] walkable(m, cx, by),
    ensures
        connected(m, (ax, ay), (bx, by)),
{
    let ylo = if ay <= by { ay } else { by };
    let yhi = if ay <= by { by } else { ay };
    lemma_v_line_connected(m, ylo, yhi, ax);
    if ay <= by {
    } else {
        lemma_connected_sym(m, (ax, ylo), (ax, yhi));
    }
    assert(connected(m, (ax, ay), (ax, by)));
    let xlo = if ax <= bx { ax } else { bx };
    let xhi = if ax <= bx { bx } else { ax };
    lemma_h_line_connected(m, xlo, xhi, by);
    if ax <= bx {
    } else {
        lemma_connected_sym(m, (xlo, by), (xhi, by));
    }
    assert(connected(m, (ax, by), (bx, by)));
    lemma_connected_trans(m, (ax, ay), (ax, by), (bx, by));
}

/// Assembles well-formedness of a rebuilt game: the carried-over
/// player (repositioned) at id 0, the carried inventory at ids `1..`,
/// fresh catalog spawns, one stairs marker last, and a bounded fresh
/// experience total.
#[verifier::rlimit(100)]
proof fn lemma_rebuilt_wf(g0: GameV, gf: GameV, rooms: Seq<Rect>, n_base: int)
    requires
        g0.wf(),
        xp_potential(g0) <= XP_POTENTIAL_CAP - FRESH_XP_LIMIT,
        n_base == g0.inventory.len() + 1,
        rooms.len() >= 1,
        forall|i: int| 0 <= i < rooms.len() ==> room_shape_ok(#[trigger] rooms[i]),
        gf.objects.len() >= n_base + 1,
        gf.objects.len() <= usize::MAX,
        gf.player_id == 0,
        gf.stairs_id == gf.objects.len() - 1,
        gf.objects[0] == (ObjectV {
            x: rect_center(rooms[0]).0 as i32,
            y: rect_center(rooms[0]).1 as i32,
            ..g0.player()
        }),
        forall|k: int|
            1 <= k < n_base ==> #[trigger] gf.objects[k] == g0.objects[g0.inventory[k - 1]],
        forall|j: int|
            n_base <= j < gf.objects.len() - 1 ==> exists|ri: int|
                0 <= ri < rooms.len() && spawned_ok(
                    #[trigger] gf.objects[j],
                    j as usize,
                    rooms[ri],
                ),
        gf.objects.last() == stairs_v(
            rect_center(rooms.last()).0 as i32,
            rect_center(rooms.last()).1 as i32,
        ),
        gf.inventory == inv_view_of(n_base - 1),
        map_wf(gf.map),
        gf.messages == g0.messages,
        gf.state == g0.state,
        gf.dungeon_level == g0.dungeon_level,
        monsters_xp(gf.objects, 0) <= FRESH_XP_LIMIT,
        0 <= monsters_xp(gf.objects, 0),
    ensures
        gf.wf(),
{
    assert(g0.entity_ok(g0.player_id));
    lemma_center_in_interior(rooms[0]);
    lemma_center_in_interior(rooms.last());
    // the player is not inventoried in g0 (inventory entries carry no
    // Fighter), hence not equipped
    assert(!crate::game::is_equipped_ent(g0.player())) by {
        if crate::game::is_equipped_ent(g0.player()) {
            assert(g0.inventory.contains(g0.player_id));
            let k = choose|k: int| 0 <= k < g0.inventory.len() && g0.inventory[k] == g0.player_id;
            assert(g0.objects[g0.inventory[k]].fighter is None);
        }
    }
    assert forall|j: int| 0 <= j < gf.objects.len() implies gf.entity_ok(j) by {
        if j == 0 {
            assert(g0.entity_ok(g0.player_id));
        } else if j < n_base {
            assert(gf.objects[j] == g0.objects[g0.inventory[j - 1]]);
            assert(0 <= g0.inventory[j - 1] < g0.objects.len());
            assert(g0.entity_ok(g0.inventory[j - 1]));
            assert(g0.objects[g0.inventory[j - 1]].fighter is None);
            assert(g0.objects[g0.inventory[j - 1]].ai is None);
        } else if j < gf.objects.len() - 1 {
            reveal(spawned_ok);
            let ri = choose|ri: int|
                0 <= ri < rooms.len() && spawned_ok(gf.objects[j], j as usize, rooms[ri]);
            assert(room_shape_ok(rooms[ri]));
            assert(room_interior(rooms[ri], gf.objects[j].x as int, gf.objects[j].y as int));
        } else {
            assert(gf.objects[j] == gf.objects.last());
        }
    }
    // inventory discipline
    let inv = gf.inventory;
    assert(inv.len() == n_base - 1);
    assert forall|k: int| 0 <= k < inv.len() implies 0 <= #[trigger] inv[k]
        < gf.objects.len() by {}
    assert forall|k: int|
        0 <= k < inv.len() implies gf.objects[#[trigger] inv[k]].fighter is None
            && gf.objects[inv[k]].ai is None by {
        assert(inv[k] == k + 1);
        assert(gf.objects[k + 1] == gf.objects[inv[k]]);
        assert(gf.objects[inv[k]] == g0.objects[g0.inventory[inv[k] - 1]]);
        assert(g0.objects[g0.inventory[k]].fighter is None);
        assert(g0.objects[g0.inventory[k]].ai is None);
    }
    assert forall|i: int|
        0 <= i < gf.objects.len() && crate::game::is_equipped_ent(
            #[trigger] gf.objects[i],
        ) implies gf.inventory.contains(i) by {
        if i == 0 {
            assert(false);
        } else if i < n_base {
            assert(inv[i - 1] == i);
        } else if i < gf.objects.len() - 1 {
            reveal(spawned_ok);
            let ri = choose|ri: int|
                0 <= ri < rooms.len() && spawned_ok(gf.objects[i], i as usize, rooms[ri]);
            assert(!crate::game::is_equipped_ent(gf.objects[i]));
        } else {
            assert(gf.objects[i] == gf.objects.last());
        }
    }
    assert forall|i: int, j: int|
        #![trigger gf.objects[i].equipment, gf.objects[j].equipment]
        0 <= i < gf.objects.len() && 0 <= j < gf.objects.len() && i != j
            && crate::game::is_equipped_ent(gf.objects[i]) && crate::game::is_equipped_ent(
            gf.objects[j],
        ) implies crate::game::slot_of(gf.objects[i]) != crate::game::slot_of(gf.objects[j]) by {
        assert(gf.inventory.contains(i));
        assert(gf.inventory.contains(j));
        assert(1 <= i < n_base && 1 <= j < n_base);
        let oi = g0.inventory[i - 1];
        let oj = g0.inventory[j - 1];
        assert(gf.objects[i] == g0.objects[oi] && gf.objects[j] == g0.objects[oj]);
        assert(oi != oj) by {
            if oi == oj {
                assert(g0.inventory[i - 1] == g0.inventory[j - 1]);
            }
        }
        assert(crate::game::is_equipped_ent(g0.objects[oi]) && crate::game::is_equipped_ent(
            g0.objects[oj],
        ));
    }
    // experience in play
    assert forall|i: int|
        0 <= i < g0.objects.len() implies match (#[trigger] g0.objects[i]).fighter {
        Some(ff) => ff.xp >= 0,
        None => true,
    } by {
        assert(g0.entity_ok(i));
    }
    lemma_monsters_xp_bounds(g0.objects, g0.player_id);
    assert(xp_potential(gf) == gf.player().fighter->Some_0.xp + monsters_xp(gf.objects, 0));
    assert(gf.player().fighter->Some_0.xp == g0.player().fighter->Some_0.xp);
    assert(g0.player().fighter->Some_0.xp <= xp_potential(g0));
    assert(xp_potential(gf) <= XP_POTENTIAL_CAP);
    assert(gf.wf());
}


/// Walkable cells stay walkable on a grid that only carved more.
proof fn lemma_room_open_mono(m1: Seq<Seq<Tile>>, m2: Seq<Seq<Tile>>, r: Rect)
    requires
        room_open(m1, r),
        forall|x: int, y: int| #[trigger] walkable(m1, x, y) ==> walkable(m2, x, y),
    ensures
        room_open(m2, r),
{
    assert forall|x: int, y: int| room_interior(r, x, y) implies #[trigger] walkable(m2, x, y) by {
        assert(walkable(m1, x, y));
    }
}

/// Carves one room, keeping the border ring solid: afterwards the
/// room's interior is open, every previously walkable cell still is,
/// and the grid stays well-formed.
fn carve_room(map: &mut Grid, room: Rect)
    requires
        map_wf(grid_view(*old(map))),
        room_shape_ok(room),
    ensures
        map_wf(grid_view(*final(map))),
        forall|x: int, y: int|
            #[trigger] walkable(grid_view(*old(map)), x, y) ==> walkable(
                grid_view(*final(map)),
                x,
                y,
            ),
        room_open(grid_view(*final(map)), room),
        forall|x: int, y: int|
            in_map(x, y) ==> #[trigger] grid_view(*final(map))[x][y] == (if room_interior(
                room,
                x,
                y,
            ) {
                carved(grid_view(*old(map))[x][y])
            } else {
                grid_view(*old(map))[x][y]
            }),
{
    let ghost m1 = grid_view(*map);
    create_room(room, map);
    proof {
        let m2 = grid_view(*map);
        assert forall|cx: int, cy: int| #[trigger] walkable(m1, cx, cy) implies walkable(
            m2,
            cx,
            cy,
        ) by {}
        assert forall|cx: int, cy: int|
            in_map(cx, cy) && crate::gamemap::on_border(cx, cy) implies (
        #[trigger] m2[cx][cy]).blocked by {
            assert(!room_interior(room, cx, cy));
            assert(m2[cx][cy] == m1[cx][cy]);
            assert(m1[cx][cy].blocked);
        }
        assert forall|cx: int, cy: int|
            room_interior(room, cx, cy) implies #[trigger] walkable(m2, cx, cy) by {
            assert(in_map(cx, cy));
            assert(m2[cx][cy] == carved(m1[cx][cy]));
        }
    }
}

/// Connects two room centers with an L-shaped corridor, the leg order
/// chosen by a coin flip: afterwards the centers are connected, every
/// previously walkable cell still is, and the grid stays well-formed.
fn connect_rooms(map: &mut Grid, prev: Rect, new_room: Rect)
    requires
        map_wf(grid_view(*old(map))),
        room_shape_ok(prev),
        room_shape_ok(new_room),
    ensures
        map_wf(grid_view(*final(map))),
        forall|x: int, y: int|
            #[trigger] walkable(grid_view(*old(map)), x, y) ==> walkable(
                grid_view(*final(map)),
                x,
                y,
            ),
        connected(grid_view(*final(map)), rect_center(prev), rect_center(new_room)),
        forall|x: int, y: int|
            in_map(x, y) ==> #[trigger] grid_view(*final(map))[x][y] == grid_view(
                *old(map),
            )[x][y] || (corridor_cell(rect_center(prev), rect_center(new_room), x, y)
                && !grid_view(*final(map))[x][y].blocked),
{
    proof {
        lemma_center_in_interior(prev);
        lemma_center_in_interior(new_room);
    }
    let (prev_x, prev_y) = prev.center();
    let (new_x, new_y) = new_room.center();
    let ghost m_before = grid_view(*map);
    let coin = rand_bool();
    if coin {
        create_h_tunnel(prev_x, new_x, prev_y, map);
        let ghost m3 = grid_view(*map);
        create_v_tunnel(prev_y, new_y, new_x, map);
        proof {
            let m4 = grid_view(*map);
            assert forall|cx: int|
                (if prev_x as int <= new_x as int {
                    prev_x as int <= cx <= new_x as int
                } else {
                    new_x as int <= cx <= prev_x as int
                }) implies #[trigger] walkable(m4, cx, prev_y as int) by {
                assert(h_tunnel_cell(prev_x as int, new_x as int, prev_y as int, cx, prev_y as int));
                assert(in_map(cx, prev_y as int));
                assert(!m3[cx][prev_y as int].blocked);
            }
            assert forall|cy: int|
                (if prev_y as int <= new_y as int {
                    prev_y as int <= cy <= new_y as int
                } else {
                    new_y as int <= cy <= prev_y as int
                }) implies #[trigger] walkable(m4, new_x as int, cy) by {
                assert(v_tunnel_cell(prev_y as int, new_y as int, new_x as int, new_x as int, cy));
                assert(in_map(new_x as int, cy));
            }
            lemma_l_connected_h_first(m4, prev_x as int, prev_y as int, new_x as int, new_y as int);
            assert forall|x: int, y: int| in_map(x, y) implies #[trigger] m4[x][y]
                == m_before[x][y] || (corridor_cell(
                (prev_x as int, prev_y as int),
                (new_x as int, new_y as int),
                x,
                y,
            ) && !m4[x][y].blocked) by {
                if m4[x][y] != m_before[x][y] {
                    assert(m3[x][y] == m_before[x][y] || h_tunnel_cell(
                        prev_x as int,
                        new_x as int,
                        prev_y as int,
                        x,
                        y,
                    ));
                    assert(m4[x][y] == m3[x][y] || v_tunnel_cell(
                        prev_y as int,
                        new_y as int,
                        new_x as int,
                        x,
                        y,
                    ));
                }
            }
        }
    } else {
        create_v_tunnel(prev_y, new_y, prev_x, map);
        let ghost m3 = grid_view(*map);
        create_h_tunnel(prev_x, new_x, new_y, map);
        proof {
            let m4 = grid_view(*map);
            assert forall|cy: int|
                (if prev_y as int <= new_y as int {
                    prev_y as int <= cy <= new_y as int
                } else {
                    new_y as int <= cy <= prev_y as int
                }) implies #[trigger] walkable(m4, prev_x as int, cy) by {
                assert(v_tunnel_cell(prev_y as int, new_y as int, prev_x as int, prev_x as int, cy));
                assert(in_map(prev_x as int, cy));
                assert(!m3[prev_x as int][cy].blocked);
            }
            assert forall|cx: int|
                (if prev_x as int <= new_x as int {
                    prev_x as int <= cx <= new_x as int
                } else {
                    new_x as int <= cx <= prev_x as int
                }) implies #[trigger] walkable(m4, cx, new_y as int) by {
                assert(h_tunnel_cell(prev_x as int, new_x as int, new_y as int, cx, new_y as int));
                assert(in_map(cx, new_y as int));
            }
            lemma_l_connected_v_first(m4, prev_x as int, prev_y as int, new_x as int, new_y as int);
            assert forall|x: int, y: int| in_map(x, y) implies #[trigger] m4[x][y]
                == m_before[x][y] || (corridor_cell(
                (prev_x as int, prev_y as int),
                (new_x as int, new_y as int),
                x,
                y,
            ) && !m4[x][y].blocked) by {
                if m4[x][y] != m_before[x][y] {
                    assert(m3[x][y] == m_before[x][y] || v_tunnel_cell(
                        prev_y as int,
                        new_y as int,
                        prev_x as int,
                        x,
                        y,
                    ));
                    assert(m4[x][y] == m3[x][y] || h_tunnel_cell(
                        prev_x as int,
                        new_x as int,
                        new_y as int,
                        x,
                        y,
                    ));
                }
            }
        }
    }
    proof {
        let m4 = grid_view(*map);
        assert forall|cx: int, cy: int| #[trigger] walkable(m_before, cx, cy) implies walkable(
            m4,
            cx,
            cy,
        ) by {}
        assert forall|cx: int, cy: int|
            in_map(cx, cy) && crate::gamemap::on_border(cx, cy) implies (
        #[trigger] m4[cx][cy]).blocked by {
            assert(m_before[cx][cy].blocked);
            assert(1 <= prev_x as int <= MAP_WIDTH - 2 && 1 <= new_x as int <= MAP_WIDTH - 2);
            assert(1 <= prev_y as int <= MAP_HEIGHT - 2 && 1 <= new_y as int <= MAP_HEIGHT - 2);
        }
    }
}

/// A cell of the L-shaped corridor carved between two centers, in
/// either leg order the coin may have chosen.
pub open spec fn corridor_cell(a: (int, int), b: (int, int), x: int, y: int) -> bool {
    ||| h_tunnel_cell(a.0, b.0, a.1, x, y)
    ||| v_tunnel_cell(a.1, b.1, b.0, x, y)
    ||| v_tunnel_cell(a.1, b.1, a.0, x, y)
    ||| h_tunnel_cell(a.0, b.0, b.1, x, y)
}

/// An open cell the generator is allowed to have: inside an accepted
/// room's interior, or on the corridor joining two consecutive centers.
pub open spec fn open_cell_allowed(rooms: Seq<Rect>, x: int, y: int) -> bool {
    ||| exists|ri: int| 0 <= ri < rooms.len() && room_interior(#[trigger] rooms[ri], x, y)
    ||| exists|ri: int|
        0 <= ri < rooms.len() - 1 && corridor_cell(
            rect_center(#[trigger] rooms[ri]),
            rect_center(rooms[ri + 1]),
            x,
            y,
        )
}

/// Everything else stays solid: every open cell is a room-interior or
/// corridor cell.
pub open spec fn map_closed(m: Seq<Seq<Tile>>, rooms: Seq<Rect>) -> bool {
    forall|x: int, y: int|
        in_map(x, y) && !(#[trigger] m[x][y]).blocked ==> open_cell_allowed(rooms, x, y)
}

/// The generator's invariant over the rooms accepted so far: well
/// shaped, pairwise non-intersecting, open interiors, consecutive
/// centers connected, and no cell open beyond interiors and corridors.
#[verifier::opaque]
pub open spec fn rooms_ok(m: Seq<Seq<Tile>>, rooms: Seq<Rect>) -> bool {
    &&& forall|i: int| 0 <= i < rooms.len() ==> room_shape_ok(#[trigger] rooms[i])
    &&& forall|i: int, j: int|
        #![trigger rooms[i], rooms[j]]
        0 <= i < j < rooms.len() ==> !rects_intersect(rooms[i], rooms[j])
    &&& forall|i: int| 0 <= i < rooms.len() ==> room_open(m, #[trigger] rooms[i])
    &&& forall|i: int|
        0 <= i < rooms.len() - 1 ==> connected(
            m,
            rect_center(#[trigger] rooms[i]),
            rect_center(rooms[i + 1]),
        )
    &&& map_closed(m, rooms)
}

/// The generator's invariant over the arena under construction: the
/// player at id 0 (moved to the first room's center once one exists),
/// the carried inventory right after it, and catalog spawns beyond.
#[verifier::opaque]
pub open spec fn gen_state_ok(
    g: GameV,
    g0: GameV,
    n_base: int,
    base_objs: Seq<ObjectV>,
    rooms: Seq<Rect>,
) -> bool {
    &&& g.objects.len() >= n_base
    &&& forall|k2: int| 1 <= k2 < n_base ==> #[trigger] g.objects[k2] == base_objs[k2]
    &&& (rooms.len() >= 1 ==> g.objects[0] == (ObjectV {
        x: rect_center(rooms[0]).0 as i32,
        y: rect_center(rooms[0]).1 as i32,
        ..g0.player()
    }))
    &&& (rooms.len() == 0 ==> g.objects[0] == g0.player())
    &&& forall|j: int|
        n_base <= j < g.objects.len() ==> exists|ri: int|
            0 <= ri < rooms.len() && spawned_ok(#[trigger] g.objects[j], j as usize, rooms[ri])
    &&& g.player_id == 0
    &&& g.stairs_id == 0
    &&& g.inventory == inv_view_of(n_base - 1)
    &&& g.state == g0.state
    &&& g.dungeon_level == g0.dungeon_level
    &&& g.messages == g0.messages
    &&& g.fov_recompute == g0.fov_recompute
}


/// Populates one accepted room and accounts for what it adds: the
/// arena is only appended to (fresh catalog spawns standing in the
/// room), and the monsters' experience grows by at most 800.
#[verifier::rlimit(100)]
fn populate_room(
    game: &mut Game,
    map: &Grid,
    new_room: Rect,
    level: i32,
)
    requires
        1 <= level,
        map_wf(grid_view(*map)),
        room_shape_ok(new_room),
        old(game)@.objects.len() <= 99_000,
    ensures
        old(game)@.objects.len() <= final(game)@.objects.len() <= old(game)@.objects.len() + 8,
        final(game)@.objects.subrange(0, old(game)@.objects.len() as int) == old(game)@.objects,
        forall|j: int|
            old(game)@.objects.len() <= j < final(game)@.objects.len() ==> spawned_ok(
                #[trigger] final(game)@.objects[j],
                j as usize,
                new_room,
            ),
        monsters_xp(final(game)@.objects, 0) <= monsters_xp(old(game)@.objects, 0) + 800,
        final(game)@ == (GameV { objects: final(game)@.objects, ..old(game)@ }),
{
    let ghost pre_place = game@.objects;
    place_objects(new_room, &map, &mut game.objects, level);
    proof {
        let post_place = game@.objects;
        assert(post_place.subrange(0, pre_place.len() as int) == objs_view(
            game.objects@,
        ).subrange(0, pre_place.len() as int));
        assert forall|j: int|
            pre_place.len() <= j < post_place.len() implies 0 <= xp_contrib(
            #[trigger] post_place[j],
            j,
            0,
        ) <= 100 by {
            reveal(spawned_ok);
            assert(spawned_ok(post_place[j], j as usize, new_room));
        }
        lemma_monsters_xp_prefix(post_place, pre_place.len() as int, 0);
        assert(post_place.subrange(0, pre_place.len() as int) =~= pre_place);
        assert(monsters_xp(post_place, 0) <= monsters_xp(pre_place, 0) + 800);
    }
}

/// One room placement attempt: a random candidate is accepted — carved,
/// populated, connected to the previously accepted room — unless it
/// intersects an accepted room, in which case it is discarded. The
/// first attempt always accepts.
#[verifier::rlimit(100)]
fn try_room(
    game: &mut Game,
    map: &mut Grid,
    rooms: &mut Vec<Rect>,
    level: i32,
    Ghost(g0): Ghost<GameV>,
    Ghost(n_base): Ghost<int>,
    Ghost(base_objs): Ghost<Seq<ObjectV>>,
)
    requires
        1 <= level,
        g0.wf(),
        1 <= n_base <= 27,
        base_objs.len() == n_base,
        map_wf(grid_view(*old(map))),
        rooms_ok(grid_view(*old(map)), old(rooms)@),
        gen_state_ok(old(game)@, g0, n_base, base_objs, old(rooms)@),
        old(game)@.objects.len() <= 99_000,
        0 <= monsters_xp(old(game)@.objects, 0),
    ensures
        map_wf(grid_view(*final(map))),
        rooms_ok(grid_view(*final(map)), final(rooms)@),
        gen_state_ok(final(game)@, g0, n_base, base_objs, final(rooms)@),
        old(rooms)@.len() <= final(rooms)@.len() <= old(rooms)@.len() + 1,
        old(rooms)@.len() == 0 ==> final(rooms)@.len() == 1,
        final(game)@.objects.len() <= old(game)@.objects.len() + 8,
        monsters_xp(final(game)@.objects, 0) <= monsters_xp(old(game)@.objects, 0) + 800,
        0 <= monsters_xp(final(game)@.objects, 0),
{
    proof {
        assert(game@.objects.len() == game.objects@.len());
        reveal(rooms_ok);
        reveal(gen_state_ok);
    }
        let w = rand_range(ROOM_MIN_SIZE, ROOM_MAX_SIZE);
        let h = rand_range(ROOM_MIN_SIZE, ROOM_MAX_SIZE);
        let x = rand_range(0, MAP_WIDTH - w - 1);
        let y = rand_range(0, MAP_HEIGHT - h - 1);
        let new_room = Rect::new(x, y, w, h);
        proof {
            assert(room_shape_ok(new_room));
        }
        let mut failed = false;
        let mut ri: usize = 0;
        while ri < rooms.len()
            invariant
                0 <= ri <= rooms@.len(),
                failed ==> rooms@.len() > 0,
                !failed ==> forall|i: int|
                    0 <= i < ri ==> !rects_intersect(new_room, #[trigger] rooms@[i]),
            decreases rooms@.len() - ri,
        {
            if new_room.intersect(&rooms[ri]) {
                failed = true;
            }
            ri = ri + 1;
        }
        if !failed {
            accept_room(game, map, rooms, level, new_room, Ghost(g0), Ghost(n_base), Ghost(base_objs));
        }
}

/// An open cell after carving one room (and linking it to the previous
/// one, when there is one) is accounted for by the extended room list.
proof fn lemma_closed_after_link(
    m1: Seq<Seq<Tile>>,
    m2: Seq<Seq<Tile>>,
    mf: Seq<Seq<Tile>>,
    rooms: Seq<Rect>,
    new_room: Rect,
)
    requires
        map_closed(m1, rooms),
        forall|x: int, y: int|
            in_map(x, y) ==> #[trigger] m2[x][y] == (if room_interior(new_room, x, y) {
                carved(m1[x][y])
            } else {
                m1[x][y]
            }),
        rooms.len() == 0 ==> mf == m2,
        rooms.len() > 0 ==> forall|x: int, y: int|
            in_map(x, y) ==> #[trigger] mf[x][y] == m2[x][y] || (corridor_cell(
                rect_center(rooms.last()),
                rect_center(new_room),
                x,
                y,
            ) && !mf[x][y].blocked),
    ensures
        map_closed(mf, rooms.push(new_room)),
{
    let rv = rooms.push(new_room);
    assert forall|x: int, y: int|
        in_map(x, y) && !(#[trigger] mf[x][y]).blocked implies open_cell_allowed(rv, x, y) by {
        if rooms.len() > 0 && mf[x][y] != m2[x][y] {
            assert(corridor_cell(rect_center(rooms.last()), rect_center(new_room), x, y));
            assert(rv[rv.len() - 2] == rooms.last());
            assert(rv[rv.len() - 2 + 1] == new_room);
        } else {
            assert(mf[x][y] == m2[x][y]);
            if room_interior(new_room, x, y) {
                assert(rv[rv.len() - 1] == new_room);
                assert(room_interior(rv[rv.len() - 1], x, y));
            } else {
                assert(m2[x][y] == m1[x][y]);
                assert(!m1[x][y].blocked);
                assert(open_cell_allowed(rooms, x, y));
                if exists|ri: int| 0 <= ri < rooms.len() && room_interior(
                    #[trigger] rooms[ri],
                    x,
                    y,
                ) {
                    let ri = choose|ri: int|
                        0 <= ri < rooms.len() && room_interior(#[trigger] rooms[ri], x, y);
                    assert(rv[ri] == rooms[ri]);
                    assert(room_interior(rv[ri], x, y));
                } else {
                    let ri = choose|ri: int|
                        0 <= ri < rooms.len() - 1 && corridor_cell(
                            rect_center(#[trigger] rooms[ri]),
                            rect_center(rooms[ri + 1]),
                            x,
                            y,
                        );
                    assert(rv[ri] == rooms[ri]);
                    assert(rv[ri + 1] == rooms[ri + 1]);
                    assert(corridor_cell(rect_center(rv[ri]), rect_center(rv[ri + 1]), x, y));
                }
            }
        }
    }
}

/// Carves one accepted room into the grid and links it to the chain:
/// after the call the new room's interior is open, older rooms stay
/// open and connected, and (unless this is the first room) the new
/// center is connected to the previous one.
#[verifier::rlimit(100)]
fn carve_and_link(map: &mut Grid, rooms: &Vec<Rect>, new_room: Rect)
    requires
        map_wf(grid_view(*old(map))),
        rooms_ok(grid_view(*old(map)), rooms@),
        room_shape_ok(new_room),
        forall|i: int|
            0 <= i < rooms@.len() ==> !rects_intersect(new_room, #[trigger] rooms@[i]),
    ensures
        map_wf(grid_view(*final(map))),
        rooms_ok(grid_view(*final(map)), rooms@.push(new_room)),
{
    proof {
        reveal(rooms_ok);
    }
    let ghost m1_pre = grid_view(*map);
    carve_room(map, new_room);
    let ghost m2 = grid_view(*map);
    proof {
        assert forall|i: int| 0 <= i < rooms@.len() implies room_open(
            m2,
            #[trigger] rooms@[i],
        ) by {
            lemma_room_open_mono(m1_pre, m2, rooms@[i]);
        }
        assert forall|i: int| 0 <= i < rooms@.len() - 1 implies connected(
            m2,
            rect_center(#[trigger] rooms@[i]),
            rect_center(rooms@[i + 1]),
        ) by {
            lemma_connected_mono(m1_pre, m2, rect_center(rooms@[i]), rect_center(rooms@[i + 1]));
        }
    }
    if rooms.len() > 0 {
        let prev = rooms[rooms.len() - 1];
        proof {
            assert(rooms@[rooms@.len() - 1] == rooms@.last());
            assert(room_shape_ok(prev));
        }
        let ghost m_before = grid_view(*map);
        connect_rooms(map, prev, new_room);
        proof {
            let m4 = grid_view(*map);
            assert forall|i: int| 0 <= i < rooms@.len() implies room_open(
                m4,
                #[trigger] rooms@[i],
            ) by {
                lemma_room_open_mono(m_before, m4, rooms@[i]);
            }
            assert(room_open(m4, new_room)) by {
                lemma_room_open_mono(m_before, m4, new_room);
            }
            assert forall|i: int| 0 <= i < rooms@.len() - 1 implies connected(
                m4,
                rect_center(#[trigger] rooms@[i]),
                rect_center(rooms@[i + 1]),
            ) by {
                lemma_connected_mono(
                    m_before,
                    m4,
                    rect_center(rooms@[i]),
                    rect_center(rooms@[i + 1]),
                );
            }
        }
    }
    proof {
        let mf = grid_view(*map);
        let rv = rooms@.push(new_room);
        assert forall|i: int| 0 <= i < rv.len() implies room_shape_ok(#[trigger] rv[i]) by {
            if i < rv.len() - 1 {
                assert(rv[i] == rooms@[i]);
            } else {
                assert(rv[i] == new_room);
            }
        }
        assert forall|i: int, j: int|
            #![trigger rv[i], rv[j]]
            0 <= i < j < rv.len() implies !rects_intersect(rv[i], rv[j]) by {
            if j < rv.len() - 1 {
                assert(rv[i] == rooms@[i] && rv[j] == rooms@[j]);
            } else {
                assert(rv[j] == new_room && rv[i] == rooms@[i]);
                assert(!rects_intersect(new_room, rooms@[i]));
            }
        }
        assert forall|i: int| 0 <= i < rv.len() implies room_open(mf, #[trigger] rv[i]) by {
            if i < rv.len() - 1 {
                assert(rv[i] == rooms@[i]);
                assert(room_open(mf, rooms@[i]));
            } else {
                assert(rv[i] == new_room);
            }
        }
        assert forall|i: int| 0 <= i < rv.len() - 1 implies connected(
            mf,
            rect_center(#[trigger] rv[i]),
            rect_center(rv[i + 1]),
        ) by {
            assert(rv[i] == rooms@[i]);
            if i + 1 < rv.len() - 1 {
                assert(rv[i + 1] == rooms@[i + 1]);
            } else {
                assert(rv[i + 1] == new_room);
                assert(rv[i] == rooms@[rooms@.len() - 1]);
            }
        }
        lemma_closed_after_link(m1_pre, m2, mf, rooms@, new_room);
    }
}

/// Accepts one candidate room: carves and links it, populates it, and
/// — when it is the first room — moves the player to its center.
#[verifier::rlimit(100)]
fn accept_room(
    game: &mut Game,
    map: &mut Grid,
    rooms: &mut Vec<Rect>,
    level: i32,
    new_room: Rect,
    Ghost(g0): Ghost<GameV>,
    Ghost(n_base): Ghost<int>,
    Ghost(base_objs): Ghost<Seq<ObjectV>>,
)
    requires
        1 <= level,
        1 <= n_base <= 27,
        base_objs.len() == n_base,
        map_wf(grid_view(*old(map))),
        rooms_ok(grid_view(*old(map)), old(rooms)@),
        gen_state_ok(old(game)@, g0, n_base, base_objs, old(rooms)@),
        old(game)@.objects.len() <= 99_000,
        0 <= monsters_xp(old(game)@.objects, 0),
        room_shape_ok(new_room),
        forall|i: int|
            0 <= i < old(rooms)@.len() ==> !rects_intersect(new_room, #[trigger] old(rooms)@[i]),
    ensures
        map_wf(grid_view(*final(map))),
        rooms_ok(grid_view(*final(map)), final(rooms)@),
        gen_state_ok(final(game)@, g0, n_base, base_objs, final(rooms)@),
        final(rooms)@ == old(rooms)@.push(new_room),
        final(game)@.objects.len() <= old(game)@.objects.len() + 8,
        monsters_xp(final(game)@.objects, 0) <= monsters_xp(old(game)@.objects, 0) + 800,
        0 <= monsters_xp(final(game)@.objects, 0),
{
    proof {
        reveal(gen_state_ok);
        assert(game@.objects.len() == game.objects@.len());
    }
    carve_and_link(map, rooms, new_room);
    let ghost pre_place = game@.objects;
    populate_room(game, map, new_room, level);
    let ghost post_place = game@.objects;
    proof {
        assert forall|k2: int|
            0 <= k2 < pre_place.len() implies #[trigger] post_place[k2] == pre_place[k2] by {
            assert(post_place.subrange(0, pre_place.len() as int)[k2] == post_place[k2]);
        }
        assert forall|j: int|
            pre_place.len() <= j < post_place.len() implies 0 <= xp_contrib(
            #[trigger] post_place[j],
            j,
            0,
        ) <= 100 by {
            reveal(spawned_ok);
            assert(spawned_ok(post_place[j], j as usize, new_room));
        }
        lemma_monsters_xp_prefix(post_place, pre_place.len() as int, 0);
        assert(post_place.subrange(0, pre_place.len() as int) =~= pre_place);
        assert(monsters_xp(post_place, 0) >= 0);
    }
    let first = rooms.len() == 0;
    if first {
        let (new_x, new_y) = new_room.center();
        game.set_object_pos(0, new_x, new_y);
        proof {
            crate::game::lemma_monsters_xp_update(post_place, 0, 0, game@.objects[0]);
        }
    }
    rooms.push(new_room);
    proof {
        let rv = rooms@;
        let gf = game@;
        assert(rv =~= old(rooms)@.push(new_room));
        assert forall|j: int|
            n_base <= j < gf.objects.len() implies exists|ri: int|
                0 <= ri < rv.len() && spawned_ok(#[trigger] gf.objects[j], j as usize, rv[ri]) by {
            if j < pre_place.len() {
                let ri0 = choose|ri0: int|
                    0 <= ri0 < old(rooms)@.len() && spawned_ok(
                        pre_place[j],
                        j as usize,
                        old(rooms)@[ri0],
                    );
                assert(gf.objects[j] == pre_place[j]);
                assert(rv[ri0] == old(rooms)@[ri0]);
                assert(spawned_ok(gf.objects[j], j as usize, rv[ri0]));
            } else {
                assert(gf.objects[j] == post_place[j]);
                assert(spawned_ok(gf.objects[j], j as usize, new_room));
                assert(rv[rv.len() - 1] == new_room);
            }
        }
        assert forall|k2: int| 1 <= k2 < n_base implies #[trigger] gf.objects[k2]
            == base_objs[k2] by {
            assert(post_place[k2] == pre_place[k2]);
        }
        if first {
            lemma_center_in_interior(new_room);
            assert(rv[0] == new_room);
            assert(gf.objects[0] == (ObjectV {
                x: rect_center(rv[0]).0 as i32,
                y: rect_center(rv[0]).1 as i32,
                ..g0.player()
            }));
        } else {
            assert(rv[0] == old(rooms)@[0]);
            assert(gf.objects[0] == pre_place[0]);
        }
        assert(gen_state_ok(gf, g0, n_base, base_objs, rv));
    }
}

/// Builds a fresh level into the game. The grid is rebuilt fully
/// blocked and carved with up to `MAX_ROOMS` random rooms — a candidate
/// intersecting an accepted room (boundaries included) is discarded,
/// not retried — joined by L-shaped corridors and populated by depth.
/// The entity arena is rebuilt from scratch: it holds the carried-over
/// player (moved to the first room's center), the carried inventory
/// entries under ids `1..`, the fresh spawns, and exactly one stairs
/// marker at the center of the last accepted room. Everything else from
/// the previous level is gone by design.
///
/// Returns the accepted rooms: pairwise non-intersecting, consecutive
/// centers connected by walkable paths, and the player's spawn
/// connected to the stairs.
#[verifier::rlimit(100)]
pub fn make_map(game: &mut Game) -> (rooms: Vec<Rect>)
    requires
        old(game)@.wf(),
        xp_potential(old(game)@) <= XP_POTENTIAL_CAP - FRESH_XP_LIMIT,
    ensures
        final(game)@.wf(),
        rooms@.len() >= 1,
        forall|i: int| 0 <= i < rooms@.len() ==> room_shape_ok(#[trigger] rooms@[i]),
        forall|i: int, j: int|
            #![trigger rooms@[i], rooms@[j]]
            0 <= i < j < rooms@.len() ==> !rects_intersect(rooms@[i], rooms@[j]),
        forall|i: int|
            0 <= i < rooms@.len() - 1 ==> connected(
                final(game)@.map,
                rect_center(#[trigger] rooms@[i]),
                rect_center(rooms@[i + 1]),
            ),
        connected(final(game)@.map, rect_center(rooms@[0]), rect_center(rooms@.last())),
        map_wf(final(game)@.map),
        forall|x: int, y: int|
            in_map(x, y) && !(#[trigger] final(game)@.map[x][y]).blocked ==> open_cell_allowed(
                rooms@,
                x,
                y,
            ),
        final(game)@.player_id == 0,
        final(game)@.objects[0] == (ObjectV {
            x: rect_center(rooms@[0]).0 as i32,
            y: rect_center(rooms@[0]).1 as i32,
            ..old(game)@.player()
        }),
        final(game)@.inventory == inv_view_of(old(game)@.inventory.len() as int),
        forall|k: int|
            1 <= k <= old(game)@.inventory.len() ==> #[trigger] final(game)@.objects[k] == old(
                game,
            )@.objects[old(game)@.inventory[k - 1]],
        final(game)@.objects.len() >= old(game)@.inventory.len() + 2,
        final(game)@.stairs_id == final(game)@.objects.len() - 1,
        final(game)@.objects.last() == stairs_v(
            rect_center(rooms@.last()).0 as i32,
            rect_center(rooms@.last()).1 as i32,
        ),
        forall|j: int|
            old(game)@.inventory.len() + 1 <= j < final(game)@.objects.len() - 1
                ==> exists|ri: int|
                0 <= ri < rooms@.len() && spawned_ok(
                    #[trigger] final(game)@.objects[j],
                    j as usize,
                    rooms@[ri],
                ),
        final(game)@.state == old(game)@.state,
        final(game)@.dungeon_level == old(game)@.dungeon_level,
        final(game)@.messages == old(game)@.messages,
        final(game)@.fov_recompute == old(game)@.fov_recompute,
{
    let ghost g0 = old(game)@;
    proof {
        assert(g0.objects[g0.player_id] == game.objects@[game.player_id as int]@);
        assert(g0.entity_ok(g0.player_id));
    }
    let level = game.dungeon_level;
    // rebuild the arena: the carried-over player first, then the
    // carried inventory under fresh ids
    let mut new_objects: Vec<Object> = Vec::new();
    let player = game.objects[game.player_id].duplicate();
    push_object(&mut new_objects, player);
    proof {
        assert(objs_view(new_objects@) =~= seq![g0.player()]);
    }
    let mut new_inventory: Vec<usize> = Vec::new();
    let mut k: usize = 0;
    while k < game.inventory.len()
        invariant
            game@ == g0,
            g0.wf(),
            0 <= k <= g0.inventory.len(),
            game@.inventory.len() == game.inventory@.len(),
            game@.objects.len() == game.objects@.len(),
            objs_view(new_objects@).len() == k + 1,
            new_objects@.len() == k + 1,
            objs_view(new_objects@)[0] == g0.player(),
            forall|k2: int|
                1 <= k2 < k + 1 ==> #[trigger] objs_view(new_objects@)[k2]
                    == g0.objects[g0.inventory[k2 - 1]],
            new_inventory@.len() == k,
            forall|k2: int| 0 <= k2 < k ==> #[trigger] new_inventory@[k2] as int == k2 + 1,
        decreases g0.inventory.len() - k,
    {
        proof {
            assert(g0.inventory[k as int] == game.inventory@[k as int] as int);
            assert(0 <= g0.inventory[k as int] < g0.objects.len());
        }
        let item_id = game.inventory[k];
        proof {
            assert(g0.objects[item_id as int] == game.objects@[item_id as int]@);
        }
        new_inventory.push(new_objects.len());
        let carried = game.objects[item_id].duplicate();
        push_object(&mut new_objects, carried);
        k = k + 1;
    }
    let ghost n_base = g0.inventory.len() as int + 1;
    game.objects = new_objects;
    game.inventory = new_inventory;
    game.player_id = 0;
    game.stairs_id = 0;
    let ghost base_objs = objs_view(game.objects@);
    proof {
        assert(base_objs.len() == n_base);
        assert forall|k2: int| 1 <= k2 < n_base implies #[trigger] base_objs[k2]
            == g0.objects[g0.inventory[k2 - 1]] by {}
        assert(inv_view(game.inventory@) =~= inv_view_of(n_base - 1));
        assert forall|j: int|
            0 <= j < base_objs.len() implies xp_contrib(#[trigger] base_objs[j], j, 0) == 0 by {
            if j >= 1 {
                assert(base_objs[j] == g0.objects[g0.inventory[j - 1]]);
                assert(g0.objects[g0.inventory[j - 1]].fighter is None);
            }
        }
        lemma_monsters_xp_zero(base_objs, 0);
    }


    // carve the level
    let mut map = blocked_map();
    let mut rooms: Vec<Rect> = Vec::new();
    let mut attempt: i32 = 0;
    proof {
        reveal(rooms_ok);
        reveal(gen_state_ok);
        assert(rooms_ok(grid_view(map), rooms@));
        assert(gen_state_ok(game@, g0, n_base, base_objs, rooms@));
    }
    while attempt < MAX_ROOMS
        invariant
            1 <= level,
            g0.wf(),
            1 <= n_base <= 27,
            base_objs.len() == n_base,
            0 <= attempt <= MAX_ROOMS,
            attempt >= 1 ==> rooms@.len() >= 1,
            rooms@.len() <= attempt,
            map_wf(grid_view(map)),
            rooms_ok(grid_view(map), rooms@),
            gen_state_ok(game@, g0, n_base, base_objs, rooms@),
            game@.objects.len() <= n_base + 8 * attempt,
            monsters_xp(game@.objects, 0) <= 800 * attempt,
            0 <= monsters_xp(game@.objects, 0),
        decreases MAX_ROOMS - attempt,
    {
        try_room(game, &mut map, &mut rooms, level, Ghost(g0), Ghost(n_base), Ghost(base_objs));
        attempt = attempt + 1;
    }
    // the stairs stand at the center of the last accepted room
    let last_room = rooms[rooms.len() - 1];
    proof {
        assert(rooms@[rooms@.len() - 1] == rooms@.last());
        assert(room_shape_ok(last_room));
    }
    let (sx, sy) = last_room.center();
    let mut stairs = Object::new(sx, sy, '<', "stairs", colors::white(), false);
    stairs.always_visible = true;
    proof {
        assert(stairs@ == stairs_v(sx, sy));
    }
    let ghost pre_stairs = game@.objects;
    let stairs_id = game.objects.len();
    push_object(&mut game.objects, stairs);
    game.stairs_id = stairs_id;
    game.map = map;
    proof {
        reveal(rooms_ok);
        reveal(gen_state_ok);
        let gf = game@;
        lemma_monsters_xp_push(pre_stairs, 0, stairs_v(sx, sy));
        lemma_center_in_interior(rooms@[0]);
        assert(room_open(grid_view(map), rooms@[0]));
        lemma_rebuilt_wf(g0, gf, rooms@, n_base);
        // chain the consecutive connections from spawn to stairs
        let m = grid_view(map);
        let centers = Seq::new(rooms@.len(), |i: int| rect_center(rooms@[i]));
        assert(walkable(m, centers.first().0, centers.first().1)) by {
            assert(centers.first() == rect_center(rooms@[0]));
            assert(walkable(m, rect_center(rooms@[0]).0, rect_center(rooms@[0]).1));
        }
        assert forall|i: int| 0 <= i < centers.len() - 1 implies connected(
            m,
            #[trigger] centers[i],
            centers[i + 1],
        ) by {
            assert(centers[i] == rect_center(rooms@[i]));
            assert(centers[i + 1] == rect_center(rooms@[i + 1]));
        }
        lemma_connected_chain(m, centers);
        assert(centers.first() == rect_center(rooms@[0]));
        assert(centers.last() == rect_center(rooms@.last()));
    }
    rooms
}

} // verus!
