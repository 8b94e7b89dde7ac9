//! Entity store, inventory and combat behavior on small hand-built games.

use tombs::colors;
use tombs::combat::{attack, take_damage};
use tombs::consts::{INVENTORY_CAPACITY, MAP_WIDTH, MAP_HEIGHT};
use tombs::effects::{cast_confuse, cast_fireball, cast_heal, cast_lightning, closest_monster,
    TargetChoice, UseResult, use_item};
use tombs::entity::{DeathCallback, Equipment, Fighter, Item, MonsterAI, MonsterAIType, Object,
    Slot};
use tombs::fov::Fov;
use tombs::game::{full_defense, full_max_hp, full_power, get_all_equipped, get_equipped_in_slot,
    Game, GameState};
use tombs::gamemap::{blocked_map, create_room};
use tombs::geom::Rect;
use tombs::inventory::{dequip, drop_item, equip, pick_item_up, toggle_equip};

fn player_object() -> Object {
    let mut player = Object::new(5, 5, '@', "player", colors::white(), true);
    player.fighter = Some(Fighter {
        base_max_hp: 100,
        hp: 100,
        base_defense: 1,
        base_power: 2,
        xp: 0,
        death: Some(DeathCallback::Player),
    });
    player.level = 1;
    player
}

fn orc_at(x: i32, y: i32, id: usize) -> Object {
    let mut orc = Object::new(x, y, 'o', "orc", colors::desaturated_green(), true);
    orc.fighter = Some(Fighter {
        base_max_hp: 20,
        hp: 20,
        base_defense: 0,
        base_power: 4,
        xp: 35,
        death: Some(DeathCallback::Monster),
    });
    orc.ai = Some(MonsterAI { monster_id: id, old_ai: None, ai_type: MonsterAIType::Basic });
    orc
}

fn potion_at(x: i32, y: i32) -> Object {
    let mut o = Object::new(x, y, '!', "healing potion", colors::violet(), false);
    o.item = Some(Item::Heal);
    o
}

fn sword_at(x: i32, y: i32) -> Object {
    let mut o = Object::new(x, y, '/', "sword", colors::sky(), false);
    o.equipment = Some(Equipment {
        slot: Slot::RightHand,
        is_equipped: false,
        power_bonus: 3,
        defense_bonus: 0,
        max_hp_bonus: 0,
    });
    o.item = Some(Item::Nothing);
    o
}

/// A small arena: an open room with the player at (5, 5) and a stairs
/// marker, plus whatever the test pushes afterwards.
fn small_game() -> Game {
    let mut map = blocked_map();
    create_room(Rect::new(1, 1, 30, 30), &mut map);
    let mut stairs = Object::new(20, 20, '<', "stairs", colors::white(), false);
    stairs.always_visible = true;
    Game {
        state: GameState::Playing,
        dungeon_level: 1,
        map,
        fov_recompute: false,
        messages: Vec::new(),
        objects: vec![player_object(), stairs],
        player_id: 0,
        stairs_id: 1,
        inventory: Vec::new(),
    }
}

fn all_visible() -> Fov {
    let mut fov = Fov::new();
    for x in 0..MAP_WIDTH as usize {
        for y in 0..MAP_HEIGHT as usize {
            fov.set(x, y, true);
        }
    }
    fov
}

#[test]
fn damage_nonpositive_changes_no_hp() {
    let mut g = small_game();
    take_damage(0, 0, &mut g);
    assert_eq!(g.objects[0].fighter.as_ref().unwrap().hp, 100);
    take_damage(0, -12, &mut g);
    assert_eq!(g.objects[0].fighter.as_ref().unwrap().hp, 100);
}

#[test]
fn damage_without_fighter_changes_nothing() {
    let mut g = small_game();
    take_damage(1, 40, &mut g);
    assert!(g.objects[1].fighter.is_none());
    assert_eq!(g.objects[1].name, "stairs");
    assert_eq!(g.messages.len(), 0);
}

#[test]
fn attack_is_power_minus_defense() {
    let mut g = small_game();
    g.objects.push(orc_at(6, 5, 2));
    attack(0, 2, &mut g);
    // player power 2, orc defense 0: 2 damage
    assert_eq!(g.objects[2].fighter.as_ref().unwrap().hp, 18);
}

#[test]
fn attack_with_no_effect_changes_no_hp() {
    let mut g = small_game();
    let mut tank = orc_at(6, 5, 2);
    tank.fighter.as_mut().unwrap().base_defense = 9;
    g.objects.push(tank);
    attack(0, 2, &mut g);
    assert_eq!(g.objects[2].fighter.as_ref().unwrap().hp, 20);
    let (text, _) = g.messages.last().unwrap().clone();
    assert_eq!(text, "player attacks orc but it has no effect!");
}

#[test]
fn lethal_damage_transforms_and_awards_xp() {
    let mut g = small_game();
    g.objects.push(orc_at(6, 5, 2));
    take_damage(2, 25, &mut g);
    assert!(g.objects[2].fighter.is_none());
    assert!(g.objects[2].ai.is_none());
    assert!(!g.objects[2].blocks);
    assert_eq!(g.objects[2].name, "remains of orc");
    assert_eq!(g.objects[2].glyph, '%');
    assert_eq!(g.objects[0].fighter.as_ref().unwrap().xp, 35);
    // the remains cannot die a second time
    take_damage(2, 25, &mut g);
    assert_eq!(g.objects[0].fighter.as_ref().unwrap().xp, 35);
    assert_eq!(g.objects[2].name, "remains of orc");
}

#[test]
fn player_death_sets_terminal_state() {
    let mut g = small_game();
    take_damage(0, 150, &mut g);
    assert_eq!(g.state, GameState::Death);
    assert_eq!(g.objects[0].glyph, '%');
    assert!(g.objects[0].fighter.is_some());
}

#[test]
fn pick_up_appends_and_clears_ground() {
    let mut g = small_game();
    g.objects.push(potion_at(5, 5));
    pick_item_up(2, &mut g);
    assert_eq!(g.inventory, vec![2]);
    assert!(!g.objects[2].on_ground);
}

#[test]
fn twenty_seventh_pick_up_is_refused() {
    let mut g = small_game();
    for k in 0..27 {
        g.objects.push(potion_at(5, 5));
        let _ = k;
    }
    for id in 2..28 {
        pick_item_up(id, &mut g);
    }
    assert_eq!(g.inventory.len(), INVENTORY_CAPACITY);
    let before = g.inventory.clone();
    pick_item_up(28, &mut g);
    assert_eq!(g.inventory, before);
    assert!(g.objects[28].on_ground);
    let (text, _) = g.messages.last().unwrap().clone();
    assert_eq!(text, "Your inventory is full, cannot pick up healing potion.");
}

#[test]
fn equip_is_exclusive_per_slot() {
    let mut g = small_game();
    g.objects.push(sword_at(5, 5));
    g.objects.push(sword_at(5, 5));
    g.inventory = vec![2, 3];
    equip(2, &mut g);
    assert!(g.objects[2].equipment.as_ref().unwrap().is_equipped);
    // equipping the second dequips the first as an atomic side effect
    equip(3, &mut g);
    assert!(!g.objects[2].equipment.as_ref().unwrap().is_equipped);
    assert!(g.objects[3].equipment.as_ref().unwrap().is_equipped);
    assert_eq!(get_equipped_in_slot(Slot::RightHand, &g.inventory, &g.objects), Some(3));
}

#[test]
fn full_stats_sum_equipped_bonuses_only() {
    let mut g = small_game();
    let mut amulet = sword_at(5, 5);
    amulet.equipment.as_mut().unwrap().max_hp_bonus = 7;
    g.objects.push(amulet);
    g.inventory = vec![2];
    assert_eq!(full_power(0, &g), 2);
    assert_eq!(full_max_hp(0, &g), 100);
    toggle_equip(2, &mut g);
    assert_eq!(full_power(0, &g), 5);
    assert_eq!(full_max_hp(0, &g), 107);
    assert_eq!(full_defense(0, &g), 1);
    assert_eq!(get_all_equipped(0, &g).len(), 1);
    // toggling back removes exactly that item's contribution
    toggle_equip(2, &mut g);
    assert_eq!(full_power(0, &g), 2);
    assert_eq!(full_max_hp(0, &g), 100);
    // non-player entities never get equipment bonuses
    assert_eq!(get_all_equipped(1, &g).len(), 0);
}

#[test]
fn dequip_is_silent_when_not_equipped() {
    let mut g = small_game();
    g.objects.push(sword_at(5, 5));
    g.inventory = vec![2];
    dequip(2, &mut g);
    assert_eq!(g.messages.len(), 0);
}

#[test]
fn drop_places_at_player_feet() {
    let mut g = small_game();
    g.objects.push(sword_at(9, 9, ));
    g.inventory = vec![2];
    equip(2, &mut g);
    drop_item(2, 0, &mut g);
    assert!(g.inventory.is_empty());
    assert!(g.objects[2].on_ground);
    assert_eq!((g.objects[2].x, g.objects[2].y), (5, 5));
    assert!(!g.objects[2].equipment.as_ref().unwrap().is_equipped);
}

#[test]
fn heal_at_full_health_is_cancelled() {
    let mut g = small_game();
    let r = cast_heal(&mut g);
    assert_eq!(r, UseResult::Cancelled);
    assert_eq!(g.objects[0].fighter.as_ref().unwrap().hp, 100);
    let (text, _) = g.messages.last().unwrap().clone();
    assert_eq!(text, "You are already at full health.");
}

#[test]
fn heal_restores_fixed_amount_capped() {
    let mut g = small_game();
    take_damage(0, 50, &mut g);
    let r = cast_heal(&mut g);
    assert_eq!(r, UseResult::Used);
    assert_eq!(g.objects[0].fighter.as_ref().unwrap().hp, 90);
    let r2 = cast_heal(&mut g);
    assert_eq!(r2, UseResult::Used);
    // capped at full maximum
    assert_eq!(g.objects[0].fighter.as_ref().unwrap().hp, 100);
}

#[test]
fn lightning_strikes_closest_visible_monster() {
    let mut g = small_game();
    g.objects.push(orc_at(8, 5, 2));
    g.objects.push(orc_at(6, 5, 3));
    let fov = all_visible();
    assert_eq!(closest_monster(5, &g, &fov), Some(3));
    let r = cast_lightning(&mut g, &fov);
    assert_eq!(r, UseResult::Used);
    // 40 damage kills the 20 hp orc; its experience goes to the player
    assert!(g.objects[3].fighter.is_none());
    assert_eq!(g.objects[0].fighter.as_ref().unwrap().xp, 35);
    assert_eq!(g.objects[2].fighter.as_ref().unwrap().hp, 20);
}

#[test]
fn lightning_without_target_is_cancelled() {
    let mut g = small_game();
    let fov = all_visible();
    let r = cast_lightning(&mut g, &fov);
    assert_eq!(r, UseResult::Cancelled);
    let (text, _) = g.messages.last().unwrap().clone();
    assert_eq!(text, "No enemy is close enough to strike.");
}

#[test]
fn fireball_on_own_tile_burns_the_player() {
    let mut g = small_game();
    let r = cast_fireball(&mut g, Some((5, 5)));
    assert_eq!(r, UseResult::Used);
    assert_eq!(g.objects[0].fighter.as_ref().unwrap().hp, 75);
}

#[test]
fn fireball_aborted_changes_no_hp() {
    let mut g = small_game();
    let r = cast_fireball(&mut g, None);
    assert_eq!(r, UseResult::Cancelled);
    assert_eq!(g.objects[0].fighter.as_ref().unwrap().hp, 100);
}

#[test]
fn confuse_saves_prior_variant() {
    let mut g = small_game();
    g.objects.push(orc_at(8, 5, 2));
    let fov = all_visible();
    let r = cast_confuse(&mut g, &fov, Some(2));
    assert_eq!(r, UseResult::Used);
    let ai = g.objects[2].ai.as_ref().unwrap();
    assert_eq!(ai.ai_type, MonsterAIType::Confused { num_turns: 10 });
    assert_eq!(ai.old_ai, Some(MonsterAIType::Basic));
}

#[test]
fn used_item_is_consumed_cancelled_is_not() {
    let mut g = small_game();
    g.objects.push(potion_at(5, 5));
    g.inventory = vec![2];
    take_damage(0, 30, &mut g);
    let fov = all_visible();
    use_item(2, 0, &mut g, &fov, TargetChoice::Untargeted);
    assert!(g.inventory.is_empty());
    assert_eq!(g.objects[0].fighter.as_ref().unwrap().hp, 100);
    // a heal at full health cancels and the item stays
    g.objects.push(potion_at(5, 5));
    g.inventory = vec![3];
    use_item(3, 0, &mut g, &fov, TargetChoice::Untargeted);
    assert_eq!(g.inventory, vec![3]);
    let (text, _) = g.messages.last().unwrap().clone();
    assert_eq!(text, "Cancelled");
}

#[test]
fn equipment_toggles_instead_of_consuming() {
    let mut g = small_game();
    g.objects.push(sword_at(5, 5));
    g.inventory = vec![2];
    let fov = all_visible();
    use_item(2, 0, &mut g, &fov, TargetChoice::Untargeted);
    assert_eq!(g.inventory, vec![2]);
    assert!(g.objects[2].equipment.as_ref().unwrap().is_equipped);
    use_item(2, 0, &mut g, &fov, TargetChoice::Untargeted);
    assert!(!g.objects[2].equipment.as_ref().unwrap().is_equipped);
}

#[test]
fn message_log_evicts_oldest_at_capacity() {
    let mut g = small_game();
    for n in 0..7 {
        g.message(format!("note {}", n), colors::white());
    }
    assert_eq!(g.messages.len(), 6);
    assert_eq!(g.messages[0].0, "note 1");
    assert_eq!(g.messages[5].0, "note 6");
}
