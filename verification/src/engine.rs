//! The turn engine: starting a game, descending the stairs, the
//! level-up rule, and the dispatch of one player intent. One turn is
//! one qualifying player action followed by one AI pass (the pass
//! itself is in the AI module; the caller runs it when an intent took
//! a turn and the game is still in play).

use vstd::prelude::*;
use vstd::string::StringExecFns;
use crate::colors;
use crate::colors::{red_v, yellow_v, light_violet_v};
use crate::combat::{player_move_or_attack, player_move_or_attack_step};
use crate::consts::{LEVEL_UP_BASE, LEVEL_UP_FACTOR, XP_POTENTIAL_CAP, FRESH_XP_LIMIT};
use crate::effects::{TargetChoice, use_item, use_item_step, healed_fighter};
use crate::entity::{Equipment, Fighter, DeathCallback, Item, Object, ObjectV, Slot};
use crate::fov::{Fov, fov_view};
use crate::game::{Game, GameV, GameState, BonusKind, spec_full_stat, full_max_hp, log_push,
    objs_view, lemma_wf_log_only, xp_potential, monsters_xp, lemma_monsters_xp_update,
    lemma_monsters_xp_bounds, sum_bonus, inv_view};
use crate::gamemap::blocked_map;
use crate::inventory::{pick_item_up, pick_step, drop_item, drop_step, equip};
use crate::mapgen::{make_map, inv_view_of, stairs_v};
use crate::text::int_text;

verus! {

/// One discrete player intent, as the input collaborator reports it.
#[derive(Clone, Copy, PartialEq, Eq, Structural, Debug)]
pub enum PlayerIntent {
    Move(i32, i32),
    Wait,
    PickUp,
    UseItem(usize, TargetChoice),
    DropItem(usize),
    CharacterSheet,
    Descend,
}

/// How an intent was classified: a qualifying action that triggers an
/// AI pass, or a free action that does not.
#[derive(Clone, Copy, PartialEq, Eq, Structural, Debug)]
pub enum PlayerAction {
    TookTurn,
    DidntTakeTurn,
}

/// The experience threshold for the player's next level.
pub open spec fn spec_level_up_xp(g: GameV) -> int {
    LEVEL_UP_BASE + g.player().level * LEVEL_UP_FACTOR
}

/// Whether the player has banked enough experience to level up.
pub fn level_up_pending(game: &Game) -> (r: bool)
    requires
        game@.wf(),
    ensures
        r == (game@.player().fighter->Some_0.xp >= spec_level_up_xp(game@)),
{
    proof {
        assert(game@.entity_ok(game@.player_id));
        assert(game@.objects[game@.player_id] == game.objects@[game.player_id as int]@);
    }
    let level = game.objects[game.player_id].level;
    let threshold = LEVEL_UP_BASE + level * LEVEL_UP_FACTOR;
    match &game.objects[game.player_id].fighter {
        Some(f) => f.xp >= threshold,
        None => {
            proof {
                assert(false);
            }
            false
        },
    }
}

/// The player's pick at the mandatory level-up prompt.
#[derive(Clone, Copy, PartialEq, Eq, Structural, Debug)]
pub enum LevelUpChoice {
    Constitution,
    Strength,
    Agility,
}

/// The message announcing a level-up, for the level just reached.
pub open spec fn level_up_text(new_level: int) -> Seq<char> {
    "Your battle skills grow stronger! You reached level "@ + int_text(new_level) + "!"@
}

/// The player's fighter after one level-up choice.
pub open spec fn leveled_fighter(f: Fighter, threshold: int, choice: LevelUpChoice) -> Fighter {
    let debited = Fighter { xp: (f.xp - threshold) as i32, ..f };
    match choice {
        LevelUpChoice::Constitution => Fighter {
            base_max_hp: (debited.base_max_hp + 20) as i32,
            hp: (debited.hp + 20) as i32,
            ..debited
        },
        LevelUpChoice::Strength => Fighter { base_power: (debited.base_power + 1) as i32, ..debited },
        LevelUpChoice::Agility => Fighter {
            base_defense: (debited.base_defense + 1) as i32,
            ..debited
        },
    }
}

/// The successor state of one level-up: the level rises by one, exactly
/// the threshold is debited (not all experience), the chosen stat
/// rises, and the level-up is reported.
pub open spec fn level_up_step(g: GameV, choice: LevelUpChoice) -> GameV {
    let p = g.player();
    let f = p.fighter->Some_0;
    GameV {
        objects: g.objects.update(
            g.player_id,
            ObjectV {
                level: (p.level + 1) as i32,
                fighter: Some(leveled_fighter(f, spec_level_up_xp(g), choice)),
                ..p
            },
        ),
        messages: log_push(g.messages, (level_up_text(p.level + 1), yellow_v())),
        ..g
    }
}

/// Applies one level-up. The caller checks `level_up_pending` first and
/// blocks on the single-choice prompt until a valid choice arrives.
pub fn apply_level_up(game: &mut Game, choice: LevelUpChoice)
    requires
        old(game)@.wf(),
        old(game)@.player().fighter->Some_0.xp >= spec_level_up_xp(old(game)@),
    ensures
        final(game)@ == level_up_step(old(game)@, choice),
        final(game)@.wf(),
{
    let ghost g0 = old(game)@;
    proof {
        assert(g0.entity_ok(g0.player_id));
        assert(g0.objects[g0.player_id] == game.objects@[game.player_id as int]@);
        assert forall|i: int|
            0 <= i < g0.objects.len() implies match (#[trigger] g0.objects[i]).fighter {
            Some(ff) => ff.xp >= 0,
            None => true,
        } by {
            assert(g0.entity_ok(i));
        }
        lemma_monsters_xp_bounds(g0.objects, g0.player_id);
        assert(g0.player().fighter->Some_0.xp <= xp_potential(g0));
    }
    let pid = game.player_id;
    let level = game.objects[pid].level;
    let threshold = LEVEL_UP_BASE + level * LEVEL_UP_FACTOR;
    let f: Fighter = match &game.objects[pid].fighter {
        Some(f) => *f,
        None => {
            proof {
                assert(false);
            }
            return ;
        },
    };
    let mut nf = Fighter { xp: f.xp - threshold, ..f };
    match choice {
        LevelUpChoice::Constitution => {
            nf = Fighter { base_max_hp: nf.base_max_hp + 20, hp: nf.hp + 20, ..nf };
        },
        LevelUpChoice::Strength => {
            nf = Fighter { base_power: nf.base_power + 1, ..nf };
        },
        LevelUpChoice::Agility => {
            nf = Fighter { base_defense: nf.base_defense + 1, ..nf };
        },
    }
    let new_level = level + 1;
    proof {
        assert(game@.objects.len() == game.objects@.len());
    }
    let o = &mut game.objects[pid];
    o.level = new_level;
    o.fighter = Some(nf);
    proof {
        assert(objs_view(game.objects@) =~= g0.objects.update(
            g0.player_id,
            ObjectV {
                level: new_level,
                fighter: Some(nf),
                ..g0.player()
            },
        ));
    }
    let mut msg = String::from_str("Your battle skills grow stronger! You reached level ");
    let lvl_txt = crate::text::i32_text(new_level);
    msg.append(lvl_txt.as_str());
    msg.append("!");
    proof {
        assert(msg@ =~= level_up_text(new_level as int));
    }
    game.message(msg, colors::yellow());
    proof {
        let gf = game@;
        assert(gf == level_up_step(g0, choice));
        lemma_monsters_xp_update(g0.objects, g0.player_id, g0.player_id, gf.objects[g0.player_id]);
        assert(xp_potential(gf) <= xp_potential(g0));
        assert forall|i: int| 0 <= i < gf.objects.len() implies gf.entity_ok(i) by {
            assert(g0.entity_ok(i));
        }
        assert forall|i: int|
            0 <= i < gf.objects.len() && crate::game::is_equipped_ent(
                #[trigger] gf.objects[i],
            ) implies gf.inventory.contains(i) by {
            assert(crate::game::is_equipped_ent(g0.objects[i]));
        }
        assert forall|i: int, j: int|
            #![trigger gf.objects[i].equipment, gf.objects[j].equipment]
            0 <= i < gf.objects.len() && 0 <= j < gf.objects.len() && i != j
                && crate::game::is_equipped_ent(gf.objects[i]) && crate::game::is_equipped_ent(
                gf.objects[j],
            ) implies crate::game::slot_of(gf.objects[i]) != crate::game::slot_of(
            gf.objects[j],
        ) by {
            assert(crate::game::is_equipped_ent(g0.objects[i]) && crate::game::is_equipped_ent(
                g0.objects[j],
            ));
            assert(g0.objects[i].equipment == gf.objects[i].equipment);
            assert(g0.objects[j].equipment == gf.objects[j].equipment);
        }
        assert forall|k: int|
            0 <= k < gf.inventory.len() implies gf.objects[#[trigger] gf.inventory[k]].fighter
                is None && gf.objects[gf.inventory[k]].ai is None by {
            assert(g0.objects[g0.inventory[k]].fighter is None);
            assert(g0.objects[g0.inventory[k]].ai is None);
            assert(gf.inventory[k] != g0.player_id);
        }
        assert(gf.wf());
    }
}

/// The welcome line of a new game.
pub open spec fn welcome_text() -> Seq<char> {
    "Welcome stranger! Prepare to perish in the Tombs of the Ancient Kings."@
}

/// The starting dagger, already at the player's feet.
pub open spec fn dagger_v(x: i32, y: i32) -> ObjectV {
    ObjectV {
        x,
        y,
        glyph: '-',
        name: "dagger"@,
        color: crate::colors::sky_v(),
        blocks: false,
        always_visible: false,
        on_ground: true,
        level: 0,
        fighter: None,
        ai: None,
        item: Some(Item::Nothing),
        equipment: Some(
            Equipment {
                slot: Slot::RightHand,
                is_equipped: false,
                power_bonus: 2,
                defense_bonus: 0,
                max_hp_bonus: 0,
            },
        ),
    }
}

impl Game {
    /// Starts a new game: a fresh first level around a full-health
    /// player who carries exactly one item — an equipped dagger
    /// granting +2 power — and a welcoming message.
    #[verifier::rlimit(100)]
    pub fn new() -> (g: Game)
        ensures
            g@.wf(),
            g@.state is Playing,
            g@.dungeon_level == 1,
            g@.player_id == 0,
            g@.player().fighter == Some(
                Fighter {
                    base_max_hp: 100,
                    hp: 100,
                    base_defense: 1,
                    base_power: 2,
                    xp: 0,
                    death: Some(DeathCallback::Player),
                },
            ),
            g@.player().level == 1,
            g@.inventory.len() == 1,
            g@.inventory[0] == g@.objects.len() - 1,
            g@.objects.last() == (crate::game::set_equipped(
                dagger_v(g@.player().x, g@.player().y),
                true,
            )),
            spec_full_stat(g@, g@.player_id, BonusKind::Power) == 4,
            spec_full_stat(g@, g@.player_id, BonusKind::MaxHp) == 100,
            crate::reach::connected(
                g@.map,
                (g@.player().x as int, g@.player().y as int),
                (g@.objects[g@.stairs_id].x as int, g@.objects[g@.stairs_id].y as int),
            ),
    {
        let mut player = Object::new(1, 1, '@', "player", colors::white(), true);
        player.fighter = Some(
            Fighter {
                hp: 100,
                base_max_hp: 100,
                base_defense: 1,
                base_power: 2,
                xp: 0,
                death: Some(DeathCallback::Player),
            },
        );
        player.level = 1;
        let ghost pv = player@;
        let mut objects: Vec<Object> = Vec::new();
        crate::mapgen::push_object(&mut objects, player);
        let mut game = Game {
            state: GameState::Playing,
            dungeon_level: 1,
            map: blocked_map(),
            fov_recompute: false,
            messages: Vec::new(),
            objects,
            player_id: 0,
            stairs_id: 0,
            inventory: Vec::new(),
        };
        proof {
            let g0 = game@;
            assert(g0.objects =~= seq![pv]);
            assert(g0.inventory =~= Seq::<int>::empty());
            assert(g0.messages =~= Seq::<(Seq<char>, crate::entity::Color)>::empty());
            assert(monsters_xp(g0.objects, 0) == 0) by {
                reveal_with_fuel(crate::game::monsters_xp, 3);
                assert(g0.objects.drop_last() =~= Seq::<ObjectV>::empty());
            }
            assert forall|i: int| 0 <= i < g0.objects.len() implies g0.entity_ok(i) by {}
            assert(g0.wf());
        }
        let rooms = make_map(&mut game);
        let ghost g_made = game@;
        game.fov_recompute = true;
        let ghost g1 = game@;
        proof {
            crate::game::lemma_wf_fov_only(g_made, g1);
        }
        game.message(
            String::from_str(
                "Welcome stranger! Prepare to perish in the Tombs of the Ancient Kings.",
            ),
            colors::red(),
        );
        proof {
            lemma_wf_log_only(g1, game@);
        }
        let px = game.objects[game.player_id].x;
        let py = game.objects[game.player_id].y;
        let mut dagger = Object::new(px, py, '-', "dagger", colors::sky(), false);
        dagger.equipment = Some(
            Equipment {
                slot: Slot::RightHand,
                is_equipped: false,
                power_bonus: 2,
                defense_bonus: 0,
                max_hp_bonus: 0,
            },
        );
        dagger.item = Some(Item::Nothing);
        proof {
            assert(dagger@ == dagger_v(px, py));
        }
        let ghost g2 = game@;
        let dagger_id = game.objects.len();
        crate::mapgen::push_object(&mut game.objects, dagger);
        game.inventory.push(dagger_id);
        let ghost g3 = game@;
        proof {
            assert(inv_view(game.inventory@) =~= g2.inventory.push(dagger_id as int));
            crate::game::lemma_monsters_xp_push(g2.objects, g2.player_id, dagger_v(px, py));
            assert(g2.entity_ok(g2.player_id));
            assert forall|i: int| 0 <= i < g3.objects.len() implies g3.entity_ok(i) by {
                if i < g3.objects.len() - 1 {
                    assert(g3.objects[i] == g2.objects[i]);
                    assert(g2.entity_ok(i));
                }
            }
            assert forall|i: int|
                0 <= i < g3.objects.len() && crate::game::is_equipped_ent(
                    #[trigger] g3.objects[i],
                ) implies g3.inventory.contains(i) by {
                if i < g3.objects.len() - 1 {
                    assert(crate::game::is_equipped_ent(g2.objects[i]));
                    assert(g2.inventory.contains(i));
                }
            }
            assert forall|i: int, j: int|
                #![trigger g3.objects[i].equipment, g3.objects[j].equipment]
                0 <= i < g3.objects.len() && 0 <= j < g3.objects.len() && i != j
                    && crate::game::is_equipped_ent(g3.objects[i]) && crate::game::is_equipped_ent(
                    g3.objects[j],
                ) implies crate::game::slot_of(g3.objects[i]) != crate::game::slot_of(
                g3.objects[j],
            ) by {
                if i < g3.objects.len() - 1 && j < g3.objects.len() - 1 {
                    assert(crate::game::is_equipped_ent(g2.objects[i])
                        && crate::game::is_equipped_ent(g2.objects[j]));
                }
            }
            assert forall|k: int|
                0 <= k < g3.inventory.len() implies 0 <= #[trigger] g3.inventory[k]
                    < g3.objects.len() && g3.objects[g3.inventory[k]].fighter is None
                    && g3.objects[g3.inventory[k]].ai is None by {
                if k < g2.inventory.len() {
                    assert(g3.inventory[k] == g2.inventory[k]);
                    assert(g2.objects[g2.inventory[k]].fighter is None);
                    assert(g2.objects[g2.inventory[k]].ai is None);
                } else {
                    assert(g3.inventory[k] == dagger_id as int);
                }
            }
            assert(g3.wf());
            assert(g3.inventory.contains(dagger_id as int)) by {
                assert(g3.inventory[g3.inventory.len() - 1] == dagger_id as int);
            }
        }
        equip(dagger_id, &mut game);
        proof {
            let gf = game@;
            // the dagger was the only equipment in a fresh arena, so its
            // slot was free and equipping it touched nothing else
            assert(crate::game::slot_occupant(g3, Slot::RightHand) is None) by {
                if crate::game::slot_occupant(g3, Slot::RightHand) is Some {
                    let i = choose|i: int|
                        0 <= i < g3.objects.len() && crate::game::is_equipped_ent(
                            #[trigger] g3.objects[i],
                        ) && crate::game::slot_of(g3.objects[i]) == Slot::RightHand;
                    assert(g3.inventory.contains(i));
                    assert(i == dagger_id as int);
                }
            }
            assert(gf.objects =~= g3.objects.update(
                dagger_id as int,
                crate::game::set_equipped(dagger_v(px, py), true),
            ));
            assert(gf.inventory[0] == dagger_id as int);
            // the full stats: base plus the dagger's bonuses
            assert(sum_bonus(gf.objects, gf.inventory, BonusKind::Power) == 2) by {
                reveal_with_fuel(crate::game::sum_bonus, 3);
                assert(gf.inventory.drop_last() =~= Seq::<int>::empty());
                assert(gf.objects[gf.inventory.last()] == crate::game::set_equipped(
                    dagger_v(px, py),
                    true,
                ));
            }
            assert(sum_bonus(gf.objects, gf.inventory, BonusKind::MaxHp) == 0) by {
                reveal_with_fuel(crate::game::sum_bonus, 3);
                assert(gf.inventory.drop_last() =~= Seq::<int>::empty());
                assert(gf.objects[gf.inventory.last()] == crate::game::set_equipped(
                    dagger_v(px, py),
                    true,
                ));
            }
            assert(gf.objects[0] == g1.objects[0]);
        }
        game
    }
}

/// The rest message on descending.
pub open spec fn rest_text() -> Seq<char> {
    "You take a moment to rest, and recover your strength."@
}

/// The descent message.
pub open spec fn descend_text() -> Seq<char> {
    "After a rare moment of peace, you descend deeper into the heart of the dungeon..."@
}

/// What descending the stairs guarantees: the level counter rises, the
/// player — healed by half of full maximum hit points, capped there —
/// and the carried inventory are rebuilt into a fresh well-formed arena
/// under remapped ids, a single stairs marker stands last, and a
/// walkable path connects the new spawn to it.
pub open spec fn descended_ok(g0: GameV, gf: GameV) -> bool {
    &&& gf.dungeon_level == g0.dungeon_level + 1
    &&& gf.player_id == 0
    &&& gf.objects[0].fighter == Some(
        healed_fighter(
            g0.player().fighter->Some_0,
            spec_full_stat(g0, g0.player_id, BonusKind::MaxHp) / 2,
            spec_full_stat(g0, g0.player_id, BonusKind::MaxHp),
        ),
    )
    &&& gf.objects[0].level == g0.player().level
    &&& gf.objects[0].name == g0.player().name
    &&& gf.inventory == inv_view_of(g0.inventory.len() as int)
    &&& forall|k: int|
        1 <= k <= g0.inventory.len() ==> #[trigger] gf.objects[k] == g0.objects[g0.inventory[k
            - 1]]
    &&& gf.stairs_id == gf.objects.len() - 1
    &&& gf.objects.last() == stairs_v(gf.objects.last().x, gf.objects.last().y)
    &&& crate::reach::connected(
        gf.map,
        (gf.objects[0].x as int, gf.objects[0].y as int),
        (gf.objects[gf.stairs_id].x as int, gf.objects[gf.stairs_id].y as int),
    )
    &&& gf.state == g0.state
    &&& gf.messages == log_push(
        log_push(g0.messages, (rest_text(), light_violet_v())),
        (descend_text(), red_v()),
    )
}

impl Game {
    /// Advances to the next dungeon level: the player rests — healing
    /// by half of full maximum hit points, capped there — the level
    /// counter rises, and a fresh level is generated; only the player
    /// and the carried inventory survive into the new arena.
    #[verifier::rlimit(100)]
    pub fn next_level(&mut self) -> (rooms: Vec<crate::geom::Rect>)
        requires
            old(self)@.wf(),
            old(self)@.dungeon_level < i32::MAX,
            xp_potential(old(self)@) <= XP_POTENTIAL_CAP - FRESH_XP_LIMIT,
        ensures
            final(self)@.wf(),
            descended_ok(old(self)@, final(self)@),
    {
        let ghost g0 = self@;
        self.message(
            String::from_str("You take a moment to rest, and recover your strength."),
            colors::light_violet(),
        );
        proof {
            lemma_wf_log_only(g0, self@);
        }
        let max_hp = full_max_hp(self.player_id, self);
        proof {
            assert(self@.entity_ok(self@.player_id));
            assert(self@.objects[self@.player_id] == self.objects@[self.player_id as int]@);
        }
        let mut f: Fighter = match &self.objects[self.player_id].fighter {
            Some(f) => *f,
            None => {
                proof {
                    assert(false);
                }
                return Vec::new();
            },
        };
        let ghost g_rested = self@;
        f.heal(max_hp / 2, max_hp);
        self.set_fighter(self.player_id, Some(f));
        let ghost g_healed = self@;
        proof {
            crate::effects::lemma_heal_keeps_wf(g_rested, g_healed, (max_hp as int) / 2);
            assert(g_healed.wf());
        }
        self.message(
            String::from_str(
                "After a rare moment of peace, you descend deeper into the heart of the dungeon...",
            ),
            colors::red(),
        );
        let ghost g_msg = self@;
        proof {
            lemma_wf_log_only(g_healed, g_msg);
        }
        self.dungeon_level = self.dungeon_level + 1;
        proof {
            let gl = self@;
            assert forall|i: int| 0 <= i < gl.objects.len() implies gl.entity_ok(i) by {
                assert(g_msg.entity_ok(i));
            }
            assert(xp_potential(gl) == xp_potential(g_msg));
            assert(xp_potential(g_msg) == xp_potential(g_healed));
            crate::effects::lemma_xp_potential_update_same_fighter_hp(
                g_rested,
                g_rested.player_id,
                g_healed.objects[g_rested.player_id],
            );
            assert(xp_potential(g_healed) == xp_potential(g_rested));
            assert(xp_potential(g_rested) == xp_potential(g0));
            assert(gl.wf());
        }
        let rooms = make_map(self);
        rooms
    }
}

/// The first arena index holding a pick-up candidate at `(x, y)`: an
/// item lying on the ground there.
pub open spec fn spec_find_ground_item(objs: Seq<ObjectV>, x: int, y: int, start: int) -> Option<
    int,
>
    decreases objs.len() - start,
{
    if start >= objs.len() {
        None
    } else if objs[start].item is Some && objs[start].on_ground && objs[start].x == x
        && objs[start].y == y {
        Some(start)
    } else {
        spec_find_ground_item(objs, x, y, start + 1)
    }
}

/// Finds the first item lying on the ground at `(x, y)`.
pub fn find_ground_item(objects: &Vec<Object>, x: i32, y: i32, start: usize) -> (r: Option<usize>)
    ensures
        match spec_find_ground_item(objs_view(objects@), x as int, y as int, start as int) {
            Some(i) => r matches Some(u) && u as int == i && i < objs_view(objects@).len(),
            None => r is None,
        },
    decreases objects@.len() - start,
{
    if start >= objects.len() {
        None
    } else {
        let o = &objects[start];
        proof {
            assert(objs_view(objects@)[start as int] == objects@[start as int]@);
        }
        if o.item.is_some() && o.on_ground && o.x == x && o.y == y {
            Some(start)
        } else {
            find_ground_item(objects, x, y, start + 1)
        }
    }
}

/// Whether the inventory holds the id.
pub fn inventory_contains(game: &Game, id: usize) -> (r: bool)
    ensures
        r == game@.inventory.contains(id as int),
{
    let mut k: usize = 0;
    while k < game.inventory.len()
        invariant
            0 <= k <= game@.inventory.len(),
            game@.inventory.len() == game.inventory@.len(),
            forall|k2: int| 0 <= k2 < k ==> #[trigger] game@.inventory[k2] != id as int,
        decreases game@.inventory.len() - k,
    {
        proof {
            assert(game@.inventory[k as int] == game.inventory@[k as int] as int);
        }
        if game.inventory[k] == id {
            proof {
                assert(game@.inventory[k as int] == id as int);
            }
            return true;
        }
        k = k + 1;
    }
    proof {
        if game@.inventory.contains(id as int) {
            let k2 = choose|k2: int|
                0 <= k2 < game@.inventory.len() && game@.inventory[k2] == id as int;
        }
    }
    false
}

/// Whether a found ground item may join the inventory: it is not
/// already carried and is a plain thing (no Fighter, no AI).
pub open spec fn can_pick(g: GameV, id: int) -> bool {
    &&& !g.inventory.contains(id)
    &&& g.objects[id].fighter is None
    &&& g.objects[id].ai is None
}

/// The successor state of a pick-up intent: the first ground item on
/// the player's tile is picked up, if there is one and it may be
/// carried; otherwise nothing happens.
pub open spec fn pick_intent_step(g: GameV) -> GameV {
    match spec_find_ground_item(g.objects, g.player().x as int, g.player().y as int, 0) {
        Some(id) => if can_pick(g, id) {
            pick_step(g, id)
        } else {
            g
        },
        None => g,
    }
}

/// The player stands on the stairs.
pub open spec fn on_stairs(g: GameV) -> bool {
    g.objects[g.stairs_id].x == g.player().x && g.objects[g.stairs_id].y == g.player().y
}

/// Dispatches one player intent while the game is in play. Movement
/// intents qualify as a turn; everything else — pick up, use, drop,
/// the character sheet, descending — does not and never triggers an AI
/// pass.
#[verifier::rlimit(100)]
pub fn handle_intent(game: &mut Game, fov: &Fov, intent: PlayerIntent) -> (r: PlayerAction)
    requires
        old(game)@.wf(),
        fov.wf(),
        old(game)@.state is Playing,
        intent matches PlayerIntent::Move(dx, dy) ==> -1 <= dx <= 1 && -1 <= dy <= 1,
        intent matches PlayerIntent::UseItem(idx, choice) ==> idx < old(game)@.inventory.len() && (
        choice matches TargetChoice::TilePick(x, y) ==> crate::gamemap::in_map(x as int, y as int))
            && (choice matches TargetChoice::MonsterPick(m)
            ==> crate::effects::is_monster_target(old(game)@, fov_view(*fov), m as int)
            && crate::effects::in_confuse_range(old(game)@, m as int)),
        intent matches PlayerIntent::DropItem(idx) ==> idx < old(game)@.inventory.len(),
        intent is Descend ==> old(game)@.dungeon_level < i32::MAX && xp_potential(old(game)@)
            <= XP_POTENTIAL_CAP - FRESH_XP_LIMIT,
    ensures
        final(game)@.wf(),
        match intent {
            PlayerIntent::Move(dx, dy) => final(game)@ == player_move_or_attack_step(
                old(game)@,
                dx as int,
                dy as int,
            ) && r == PlayerAction::TookTurn,
            PlayerIntent::Wait => final(game)@ == old(game)@ && r == PlayerAction::TookTurn,
            PlayerIntent::PickUp => final(game)@ == pick_intent_step(old(game)@) && r
                == PlayerAction::DidntTakeTurn,
            PlayerIntent::UseItem(idx, choice) => final(game)@ == use_item_step(
                old(game)@,
                old(game)@.inventory[idx as int],
                idx as int,
                fov_view(*fov),
                choice,
            ) && r == PlayerAction::DidntTakeTurn,
            PlayerIntent::DropItem(idx) => final(game)@ == drop_step(
                old(game)@,
                old(game)@.inventory[idx as int],
                idx as int,
            ) && r == PlayerAction::DidntTakeTurn,
            PlayerIntent::CharacterSheet => final(game)@ == old(game)@ && r
                == PlayerAction::DidntTakeTurn,
            PlayerIntent::Descend => r == PlayerAction::DidntTakeTurn && (on_stairs(old(game)@)
                ==> descended_ok(old(game)@, final(game)@)) && (!on_stairs(old(game)@)
                ==> final(game)@ == old(game)@),
        },
{
    let ghost g0 = old(game)@;
    match intent {
        PlayerIntent::Move(dx, dy) => {
            player_move_or_attack(dx, dy, game);
            PlayerAction::TookTurn
        },
        PlayerIntent::Wait => PlayerAction::TookTurn,
        PlayerIntent::PickUp => {
            proof {
                assert(g0.entity_ok(g0.player_id));
                assert(g0.objects[g0.player_id] == game.objects@[game.player_id as int]@);
            }
            let px = game.objects[game.player_id].x;
            let py = game.objects[game.player_id].y;
            let found = find_ground_item(&game.objects, px, py, 0);
            if let Some(item_id) = found {
                proof {
                    lemma_find_ground_item_in_range(g0.objects, px as int, py as int, 0);
                }
                let carried = inventory_contains(game, item_id);
                let plain = game.objects[item_id].fighter.is_none()
                    && game.objects[item_id].ai.is_none();
                proof {
                    assert(g0.objects[item_id as int] == game.objects@[item_id as int]@);
                }
                if !carried && plain {
                    pick_item_up(item_id, game);
                }
            }
            PlayerAction::DidntTakeTurn
        },
        PlayerIntent::UseItem(idx, choice) => {
            let id = game.inventory[idx];
            proof {
                assert(g0.inventory[idx as int] == game.inventory@[idx as int] as int);
            }
            use_item(id, idx, game, fov, choice);
            PlayerAction::DidntTakeTurn
        },
        PlayerIntent::DropItem(idx) => {
            let id = game.inventory[idx];
            proof {
                assert(g0.inventory[idx as int] == game.inventory@[idx as int] as int);
                assert(0 <= g0.inventory[idx as int] < g0.objects.len());
            }
            drop_item(id, idx, game);
            PlayerAction::DidntTakeTurn
        },
        PlayerIntent::CharacterSheet => PlayerAction::DidntTakeTurn,
        PlayerIntent::Descend => {
            proof {
                assert(g0.entity_ok(g0.player_id));
                assert(g0.objects[g0.player_id] == game.objects@[game.player_id as int]@);
                assert(g0.objects[g0.stairs_id] == game.objects@[game.stairs_id as int]@);
            }
            let px = game.objects[game.player_id].x;
            let py = game.objects[game.player_id].y;
            let sx = game.objects[game.stairs_id].x;
            let sy = game.objects[game.stairs_id].y;
            if px == sx && py == sy {
                let _rooms = game.next_level();
            }
            PlayerAction::DidntTakeTurn
        },
    }
}

/// A found ground-item index lies inside the arena.
proof fn lemma_find_ground_item_in_range(objs: Seq<ObjectV>, x: int, y: int, start: int)
    ensures
        spec_find_ground_item(objs, x, y, start) matches Some(i) ==> start <= i < objs.len(),
    decreases objs.len() - start,
{
    if start < objs.len() {
        lemma_find_ground_item_in_range(objs, x, y, start + 1);
    }
}

/// The experience in play: the player's banked experience plus every
/// other fighter's. Descending needs headroom below the cap; the driver
/// checks this quantity before a descent.
pub fn experience_in_play(game: &Game) -> (r: i64)
    requires
        game@.wf(),
    ensures
        r == xp_potential(game@),
        0 <= r <= XP_POTENTIAL_CAP,
{
    let ghost g = game@;
    proof {
        assert(g.entity_ok(g.player_id));
        assert(g.objects[g.player_id] == game.objects@[game.player_id as int]@);
        assert forall|i: int|
            0 <= i < g.objects.len() implies match (#[trigger] g.objects[i]).fighter {
            Some(ff) => ff.xp >= 0,
            None => true,
        } by {
            assert(g.entity_ok(i));
        }
        lemma_monsters_xp_bounds(g.objects, g.player_id);
    }
    let player_xp: i32 = match &game.objects[game.player_id].fighter {
        Some(f) => f.xp,
        None => {
            proof {
                assert(false);
            }
            0
        },
    };
    let mut total: i64 = player_xp as i64;
    let mut i: usize = 0;
    while i < game.objects.len()
        invariant
            game@ == g,
            g.wf(),
            0 <= i <= g.objects.len(),
            player_xp as int == g.player().fighter->Some_0.xp,
            forall|k: int|
                0 <= k < g.objects.len() ==> match (#[trigger] g.objects[k]).fighter {
                    Some(ff) => ff.xp >= 0,
                    None => true,
                },
            total == player_xp + monsters_xp(g.objects.subrange(0, i as int), g.player_id),
            total <= xp_potential(g),
        decreases g.objects.len() - i,
    {
        proof {
            assert(g.objects[i as int] == game.objects@[i as int]@);
            assert(g.objects.subrange(0, i + 1).drop_last() =~= g.objects.subrange(0, i as int));
            assert(g.objects.subrange(0, i + 1).last() == g.objects[i as int]);
            crate::game::lemma_monsters_xp_prefix_le(g.objects, i + 1, g.player_id);
        }
        if i != game.player_id {
            match &game.objects[i].fighter {
                Some(f) => {
                    total = total + f.xp as i64;
                },
                None => {},
            }
        }
        i = i + 1;
    }
    proof {
        assert(g.objects.subrange(0, g.objects.len() as int) =~= g.objects);
    }
    total
}

} // verus!
