//! Dungeon generation, level transitions, the AI state machine and the
//! turn engine, exercised end to end with the real random generator.

use tombs::ai::{ai_pass, ai_take_turn};
use tombs::colors;
use tombs::combat::take_damage;
use tombs::consts::{MAP_HEIGHT, MAP_WIDTH};
use tombs::engine::{apply_level_up, handle_intent, level_up_pending, LevelUpChoice,
    PlayerAction, PlayerIntent};
use tombs::entity::{DeathCallback, Equipment, Fighter, Item, MonsterAI, MonsterAIType, Object,
    Slot};
use tombs::fov::Fov;
use tombs::game::{full_max_hp, full_power, Game, GameState};
use tombs::gamemap::get_tile;
use tombs::geom::Rect;
use tombs::mapgen::{from_dungeon_level, make_map};
use tombs::rng::{rand_range, sample_weighted};
use tombs::text::{i32_text, u32_text};

#[test]
fn new_game_matches_the_opening_contract() {
    let g = Game::new();
    assert_eq!(g.state, GameState::Playing);
    assert_eq!(g.dungeon_level, 1);
    assert_eq!(g.player_id, 0);
    let f = g.objects[0].fighter.as_ref().unwrap();
    assert_eq!((f.hp, f.base_max_hp), (100, 100));
    assert_eq!(full_max_hp(0, &g), 100);
    // exactly one inventory entry: the equipped starting weapon, +2 power
    assert_eq!(g.inventory.len(), 1);
    let dagger = &g.objects[g.inventory[0]];
    assert_eq!(dagger.name, "dagger");
    let e = dagger.equipment.as_ref().unwrap();
    assert!(e.is_equipped);
    assert_eq!(e.power_bonus, 2);
    assert_eq!(full_power(0, &g), 4);
    // the welcome line is in the log
    assert!(g.messages.iter().any(|(t, _)| t.contains("Welcome stranger!")));
}

#[test]
fn rooms_are_disjoint_and_stairs_reachable_tiles_open() {
    let mut g = Game::new();
    let rooms = make_map(&mut g);
    assert!(rooms.len() >= 1);
    for i in 0..rooms.len() {
        for j in (i + 1)..rooms.len() {
            assert!(!rooms[i].intersect(&rooms[j]));
        }
    }
    // spawn and stairs stand on walkable tiles
    let p = &g.objects[g.player_id];
    assert!(!get_tile(&g.map, p.x as usize, p.y as usize).blocked);
    let s = &g.objects[g.stairs_id];
    assert!(!get_tile(&g.map, s.x as usize, s.y as usize).blocked);
    assert_eq!(s.name, "stairs");
    assert!(s.always_visible);
    // room centers are open, and carved cells never touch the border
    for r in rooms.iter() {
        let (cx, cy) = r.center();
        assert!(!get_tile(&g.map, cx as usize, cy as usize).blocked);
    }
    for x in 0..MAP_WIDTH {
        assert!(get_tile(&g.map, x as usize, 0).blocked);
        assert!(get_tile(&g.map, x as usize, (MAP_HEIGHT - 1) as usize).blocked);
    }
}

#[test]
fn next_level_heals_half_and_keeps_the_inventory() {
    let mut g = Game::new();
    take_damage(0, 60, &mut g);
    assert_eq!(g.objects[0].fighter.as_ref().unwrap().hp, 40);
    let _rooms = g.next_level();
    assert_eq!(g.dungeon_level, 2);
    // healed by floor(100 / 2), capped at 100
    assert_eq!(g.objects[0].fighter.as_ref().unwrap().hp, 90);
    // the carried dagger survives the transition with its full payload
    assert_eq!(g.player_id, 0);
    assert_eq!(g.inventory.len(), 1);
    let dagger = &g.objects[g.inventory[0]];
    assert_eq!(dagger.name, "dagger");
    assert!(dagger.equipment.as_ref().unwrap().is_equipped);
    assert_eq!(full_power(0, &g), 4);
    // only the player, the carried item, fresh spawns and one stairs remain
    assert_eq!(g.stairs_id, g.objects.len() - 1);
}

#[test]
fn level_transition_discards_everything_not_carried() {
    let mut g = Game::new();
    let before = g.objects.len();
    let _ = before;
    let _rooms = g.next_level();
    for (id, o) in g.objects.iter().enumerate() {
        if id == 0 {
            assert_eq!(o.name, "player");
        } else if id <= g.inventory.len() {
            // carried entries, remapped to the front
            assert!(g.inventory.contains(&id));
        } else if id == g.objects.len() - 1 {
            assert_eq!(o.name, "stairs");
        } else {
            // everything else is a fresh catalog spawn
            assert!(o.on_ground);
            assert_eq!(o.level, 0);
        }
    }
}

#[test]
fn confusion_counts_down_and_reverts() {
    let mut map = tombs::gamemap::blocked_map();
    tombs::gamemap::create_room(Rect::new(1, 1, 30, 30), &mut map);
    let mut player = Object::new(5, 5, '@', "player", colors::white(), true);
    player.fighter = Some(Fighter {
        base_max_hp: 100,
        hp: 100,
        base_defense: 1,
        base_power: 2,
        xp: 0,
        death: Some(DeathCallback::Player),
    });
    player.level = 1;
    let mut orc = Object::new(20, 20, 'o', "orc", colors::desaturated_green(), true);
    orc.fighter = Some(Fighter {
        base_max_hp: 20,
        hp: 20,
        base_defense: 0,
        base_power: 4,
        xp: 35,
        death: Some(DeathCallback::Monster),
    });
    orc.ai = Some(MonsterAI {
        monster_id: 1,
        old_ai: None,
        ai_type: MonsterAIType::Confused { num_turns: 3 },
    });
    let mut g = Game {
        state: GameState::Playing,
        dungeon_level: 1,
        map,
        fov_recompute: false,
        messages: Vec::new(),
        objects: vec![player, orc],
        player_id: 0,
        stairs_id: 0,
        inventory: Vec::new(),
    };
    let fov = Fov::new();
    for turn in 0..3 {
        let before = match g.objects[1].ai.as_ref().unwrap().ai_type {
            MonsterAIType::Confused { num_turns } => num_turns,
            _ => panic!("still confused"),
        };
        assert_eq!(before, 3 - turn);
        let (ox, oy) = (g.objects[1].x, g.objects[1].y);
        ai_take_turn(1, &mut g, &fov);
        // while stumbling, each per-axis step offset is drawn from {-1, 0}
        let (dx, dy) = (g.objects[1].x - ox, g.objects[1].y - oy);
        assert!(dx == -1 || dx == 0);
        assert!(dy == -1 || dy == 0);
    }
    assert_eq!(
        g.objects[1].ai.as_ref().unwrap().ai_type,
        MonsterAIType::Confused { num_turns: 0 }
    );
    // the next turn restores the saved variant and reports it
    ai_take_turn(1, &mut g, &fov);
    assert!(g.objects[1].ai.is_none());
    let (text, _) = g.messages.last().unwrap().clone();
    assert_eq!(text, "The orc is no longer confused!");
    // a pass over the arena leaves an AI-less entity alone
    ai_pass(&mut g, &fov);
    assert!(g.objects[1].ai.is_none());
}

#[test]
fn level_up_debits_exactly_the_threshold() {
    let mut g = Game::new();
    g.objects[0].fighter.as_mut().unwrap().xp = 500;
    assert!(level_up_pending(&g));
    apply_level_up(&mut g, LevelUpChoice::Constitution);
    let f = g.objects[0].fighter.as_ref().unwrap();
    assert_eq!(g.objects[0].level, 2);
    // 500 - (200 + 1 * 150) = 150, not zero
    assert_eq!(f.xp, 150);
    assert_eq!(f.base_max_hp, 120);
    assert_eq!(f.hp, 120);
    assert!(!level_up_pending(&g));
}

#[test]
fn strength_and_agility_choices_raise_one_stat() {
    let mut g = Game::new();
    g.objects[0].fighter.as_mut().unwrap().xp = 400;
    apply_level_up(&mut g, LevelUpChoice::Strength);
    assert_eq!(g.objects[0].fighter.as_ref().unwrap().base_power, 3);
    g.objects[0].fighter.as_mut().unwrap().xp = 600;
    apply_level_up(&mut g, LevelUpChoice::Agility);
    assert_eq!(g.objects[0].fighter.as_ref().unwrap().base_defense, 2);
    assert_eq!(g.objects[0].level, 3);
}

#[test]
fn intents_classify_turns() {
    let mut g = Game::new();
    let fov = Fov::new();
    assert_eq!(handle_intent(&mut g, &fov, PlayerIntent::Wait), PlayerAction::TookTurn);
    assert_eq!(
        handle_intent(&mut g, &fov, PlayerIntent::CharacterSheet),
        PlayerAction::DidntTakeTurn
    );
    assert_eq!(
        handle_intent(&mut g, &fov, PlayerIntent::Move(0, -1)),
        PlayerAction::TookTurn
    );
    assert_eq!(handle_intent(&mut g, &fov, PlayerIntent::PickUp), PlayerAction::DidntTakeTurn);
}

#[test]
fn descend_intent_works_only_on_the_stairs() {
    let mut g = Game::new();
    let fov = Fov::new();
    // move the player away from the stairs
    let (sx, sy) = (g.objects[g.stairs_id].x, g.objects[g.stairs_id].y);
    if (g.objects[0].x, g.objects[0].y) != (sx, sy) {
        let r = handle_intent(&mut g, &fov, PlayerIntent::Descend);
        assert_eq!(r, PlayerAction::DidntTakeTurn);
        assert_eq!(g.dungeon_level, 1);
    }
    // stand on the stairs and descend
    g.objects[0].x = sx;
    g.objects[0].y = sy;
    let r = handle_intent(&mut g, &fov, PlayerIntent::Descend);
    assert_eq!(r, PlayerAction::DidntTakeTurn);
    assert_eq!(g.dungeon_level, 2);
}

#[test]
fn depth_table_takes_the_last_unlocked_entry() {
    let table: Vec<(u32, i32)> = vec![(2, 1), (3, 4), (5, 6)];
    assert_eq!(from_dungeon_level(&table, 0), 0);
    assert_eq!(from_dungeon_level(&table, 1), 2);
    assert_eq!(from_dungeon_level(&table, 3), 2);
    assert_eq!(from_dungeon_level(&table, 4), 3);
    assert_eq!(from_dungeon_level(&table, 6), 5);
    assert_eq!(from_dungeon_level(&table, 99), 5);
}

#[test]
fn rect_intersection_is_inclusive() {
    let a = Rect::new(0, 0, 4, 4);
    let b = Rect::new(4, 4, 4, 4);
    let c = Rect::new(5, 5, 4, 4);
    assert!(a.intersect(&b));
    assert!(!a.intersect(&c));
    assert_eq!(a.center(), (2, 2));
}

#[test]
fn decimal_text_renders_exactly() {
    assert_eq!(u32_text(0), "0");
    assert_eq!(u32_text(1234), "1234");
    assert_eq!(i32_text(-5), "-5");
    assert_eq!(i32_text(2147483647), "2147483647");
    assert_eq!(i32_text(-2147483648), "-2147483648");
}

#[test]
fn random_range_and_weights_respect_their_contracts() {
    for _ in 0..50 {
        let v = rand_range(-1, 1);
        assert!(v == -1 || v == 0);
    }
    // a zero-weight entry is never drawn
    let weights: Vec<u32> = vec![0, 7];
    for _ in 0..20 {
        assert_eq!(sample_weighted(&weights), Some(1));
    }
    let none: Vec<u32> = vec![0, 0];
    assert_eq!(sample_weighted(&none), None);
}

#[test]
fn snapshot_codec_round_trips() {
    let g = Game::new();
    let encoded = tombs::persist::encode_game(&g);
    let decoded = tombs::persist::decode_game(&encoded).expect("a fresh snapshot decodes");
    // the decoded snapshot re-encodes to the same text and carries the
    // same aggregate
    let re = tombs::persist::encode_game(&decoded);
    assert_eq!(encoded, re);
    assert_eq!(decoded.state, g.state);
    assert_eq!(decoded.dungeon_level, g.dungeon_level);
    assert_eq!(decoded.player_id, g.player_id);
    assert_eq!(decoded.stairs_id, g.stairs_id);
    assert_eq!(decoded.inventory, g.inventory);
    assert_eq!(decoded.objects.len(), g.objects.len());
    assert_eq!(decoded.objects[0].name, g.objects[0].name);
    assert_eq!(decoded.objects[0].fighter, g.objects[0].fighter);
    let d = &decoded.objects[decoded.inventory[0]];
    assert_eq!(d.name, "dagger");
    assert_eq!(d.equipment, g.objects[g.inventory[0]].equipment);
    assert_eq!(decoded.messages.len(), g.messages.len());
    assert_eq!(decoded.messages[0].0, g.messages[0].0);
    let (px, py) = (g.objects[0].x as usize, g.objects[0].y as usize);
    assert_eq!(get_tile(&decoded.map, px, py), get_tile(&g.map, px, py));
    // tampered or junk data is refused
    let mut bad = encoded.clone();
    bad[0] = 'x';
    assert!(tombs::persist::decode_game(&bad).is_none());
    let junk: Vec<char> = vec!['z', '9'];
    assert!(tombs::persist::decode_game(&junk).is_none());
}
