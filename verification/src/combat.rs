//! Combat resolution: damage application, the death transform, the
//! attack formula, and grid movement.
//!
//! Damage never heals: a non-positive amount leaves hit points
//! untouched. An entity without a Fighter capability can neither be
//! damaged nor die. Attack damage is attacker power minus target
//! defense, floored at zero with a "no effect" report.

use vstd::prelude::*;
use vstd::string::StringExecFns;
use crate::colors;
use crate::colors::{red_v, white_v, orange_v, dark_red_v};
use crate::consts::XP_POTENTIAL_CAP;
use crate::entity::{DeathCallback, Fighter, Object, ObjectV};
use crate::game::{Game, GameV, GameState, BonusKind, spec_full_stat, full_power, full_defense,
    log_push, objs_view, spec_is_blocked, is_blocked, lemma_monsters_xp_update,
    lemma_monsters_xp_bounds, xp_potential, monsters_xp, xp_contrib};
use crate::gamemap::{in_map, walkable};
use crate::text::{int_text, i32_text};

verus! {

/// `o` with its fighter's hit points replaced.
pub open spec fn with_hp(o: ObjectV, hp: int) -> ObjectV {
    ObjectV { fighter: Some(Fighter { hp: hp as i32, ..o.fighter->Some_0 }), ..o }
}

/// `o` with experience added to its fighter.
pub open spec fn add_xp(o: ObjectV, amount: int) -> ObjectV {
    ObjectV {
        fighter: Some(
            Fighter { xp: (o.fighter->Some_0.xp + amount) as i32, ..o.fighter->Some_0 },
        ),
        ..o
    }
}

/// The name of an entity's remains.
pub open spec fn remains_name(name: Seq<char>) -> Seq<char> {
    "remains of "@ + name
}

/// The message reporting a monster's death.
pub open spec fn monster_death_text(o: ObjectV) -> Seq<char> {
    o.name + " is dead! You gain "@ + int_text(o.fighter->Some_0.xp as int)
        + " experience points."@
}

/// The successor state of `monster_death`: report, then transform the
/// entity into inert remains (capabilities stripped, non-blocking,
/// renamed, corpse glyph).
pub open spec fn monster_death_step(g: GameV, id: int) -> GameV {
    let o = g.objects[id];
    GameV {
        objects: g.objects.update(
            id,
            ObjectV {
                glyph: '%',
                color: dark_red_v(),
                blocks: false,
                fighter: None,
                ai: None,
                name: remains_name(o.name),
                ..o
            },
        ),
        messages: log_push(g.messages, (monster_death_text(o), orange_v())),
        ..g
    }
}

/// The successor state of `player_death`: report, enter the terminal
/// Death state, and give the player a corpse glyph. The player keeps
/// its Fighter so the character sheet still reads.
pub open spec fn player_death_step(g: GameV, id: int) -> GameV {
    let o = g.objects[id];
    GameV {
        state: GameState::Death,
        objects: g.objects.update(id, ObjectV { glyph: '%', color: dark_red_v(), ..o }),
        messages: log_push(g.messages, ("You died!"@, red_v())),
        ..g
    }
}

/// The successor state of awarding experience to the player.
pub open spec fn award_step(g: GameV, amount: int) -> GameV {
    GameV { objects: g.objects.update(g.player_id, add_xp(g.player(), amount)), ..g }
}

/// The successor state of `take_damage`: hit points drop only for a
/// positive amount; at zero or below, the entity's experience is
/// awarded to the player (unless the target is the player) and the
/// death outcome runs. An entity without a Fighter is untouched.
pub open spec fn take_damage_step(g: GameV, id: int, damage: int) -> GameV {
    match g.objects[id].fighter {
        None => g,
        Some(f) => {
            let new_hp: int = if damage > 0 {
                f.hp - damage
            } else {
                f.hp as int
            };
            let g1 = if damage > 0 {
                GameV { objects: g.objects.update(id, with_hp(g.objects[id], new_hp)), ..g }
            } else {
                g
            };
            if new_hp <= 0 {
                match f.death {
                    Some(DeathCallback::Monster) => {
                        let g2 = if id != g.player_id {
                            award_step(g1, f.xp as int)
                        } else {
                            g1
                        };
                        monster_death_step(g2, id)
                    },
                    Some(DeathCallback::Player) => {
                        let g2 = if id != g.player_id {
                            award_step(g1, f.xp as int)
                        } else {
                            g1
                        };
                        player_death_step(g2, id)
                    },
                    None => g1,
                }
            } else {
                g1
            }
        },
    }
}

/// Reports a monster's death and transforms it into remains.
pub fn monster_death(id: usize, game: &mut Game)
    requires
        id < old(game)@.objects.len(),
        old(game)@.objects[id as int].fighter is Some,
        old(game)@.messages.len() <= crate::consts::MSG_HEIGHT,
    ensures
        final(game)@ == monster_death_step(old(game)@, id as int),
{
    let ghost g0 = old(game)@;
    proof {
        assert(g0.objects[id as int] == game.objects@[id as int]@);
    }
    let xp = match &game.objects[id].fighter {
        Some(f) => f.xp,
        None => 0,
    };
    let mut msg = String::from_str("");
    msg.append(game.objects[id].name.as_str());
    msg.append(" is dead! You gain ");
    let xp_txt = i32_text(xp);
    msg.append(xp_txt.as_str());
    msg.append(" experience points.");
    proof {
        reveal_strlit("");
        assert(msg@ =~= monster_death_text(g0.objects[id as int]));
    }
    let mut new_name = String::from_str("remains of ");
    new_name.append(game.objects[id].name.as_str());
    proof {
        assert(new_name@ =~= remains_name(g0.objects[id as int].name));
    }
    game.message(msg, colors::orange());
    game.transform_remains(id, new_name, colors::dark_red());
}

/// Reports the player's death, makes the Death state current, and
/// turns the player into a corpse.
pub fn player_death(id: usize, game: &mut Game)
    requires
        id < old(game)@.objects.len(),
        old(game)@.messages.len() <= crate::consts::MSG_HEIGHT,
    ensures
        final(game)@ == player_death_step(old(game)@, id as int),
{
    game.message(String::from_str("You died!"), colors::red());
    game.state = GameState::Death;
    game.set_glyph_color(id, '%', colors::dark_red());
}

impl DeathCallback {
    /// Runs the death outcome this tag selects.
    pub fn callback(&self, id: usize, game: &mut Game)
        requires
            id < old(game)@.objects.len(),
            old(game)@.objects[id as int].fighter is Some,
            old(game)@.messages.len() <= crate::consts::MSG_HEIGHT,
        ensures
            final(game)@ == match *self {
                DeathCallback::Monster => monster_death_step(old(game)@, id as int),
                DeathCallback::Player => player_death_step(old(game)@, id as int),
            },
    {
        match *self {
            DeathCallback::Monster => monster_death(id, game),
            DeathCallback::Player => player_death(id, game),
        }
    }
}

/// Applies damage to an entity. A non-positive amount never changes
/// hit points; an entity without a Fighter is never changed at all; a
/// lethal hit awards the target's experience to the player (unless the
/// target is the player) and runs the death transform.
pub fn take_damage(id: usize, damage: i32, game: &mut Game)
    requires
        old(game)@.wf(),
        id < old(game)@.objects.len(),
        old(game)@.objects[id as int].fighter matches Some(f) ==> damage <= 0 || f.hp - damage
            >= i32::MIN,
    ensures
        final(game)@ == take_damage_step(old(game)@, id as int, damage as int),
        final(game)@.wf(),
        old(game)@.objects[id as int].fighter is None ==> final(game)@ == old(game)@,
        damage <= 0 && old(game)@.objects[id as int].fighter is Some
            ==> final(game)@.objects[id as int].fighter is Some
            && final(game)@.objects[id as int].fighter->Some_0.hp
            == old(game)@.objects[id as int].fighter->Some_0.hp,
        final(game)@.objects.len() == old(game)@.objects.len(),
        final(game)@.player_id == old(game)@.player_id,
        final(game)@.stairs_id == old(game)@.stairs_id,
        final(game)@.inventory == old(game)@.inventory,
        final(game)@.map == old(game)@.map,
        final(game)@.dungeon_level == old(game)@.dungeon_level,
        id as int != old(game)@.player_id ==> final(game)@.state == old(game)@.state,
        forall|i: int|
            0 <= i < old(game)@.objects.len() ==> #[trigger] final(game)@.objects[i].equipment
                == old(game)@.objects[i].equipment,
        forall|j: int|
            0 <= j < old(game)@.objects.len() && j != id as int
                ==> #[trigger] final(game)@.objects[j].ai == old(game)@.objects[j].ai,
{
    let ghost g0 = old(game)@;
    proof {
        assert(g0.objects[id as int] == game.objects@[id as int]@);
        assert(g0.entity_ok(id as int));
    }
    let f: Fighter = match &game.objects[id].fighter {
        None => {
            return ;
        },
        Some(f) => *f,
    };
    let new_hp: i32 = if damage > 0 {
        f.hp - damage
    } else {
        f.hp
    };
    if damage > 0 {
        game.set_fighter(id, Some(Fighter { hp: new_hp, ..f }));
    }
    let ghost g1 = game@;
    proof {
        lemma_monsters_xp_update(g0.objects, g0.player_id, id as int, g1.objects[id as int]);
        assert(monsters_xp(g1.objects, g1.player_id) == monsters_xp(g0.objects, g0.player_id));
        assert(xp_potential(g1) == xp_potential(g0));
    }
    proof {
        assert forall|i: int|
            0 <= i < g1.objects.len() implies match (#[trigger] g1.objects[i]).fighter {
            Some(ff) => ff.xp >= 0,
            None => true,
        } by {
            assert(g0.entity_ok(i));
        }
    }
    if new_hp <= 0 {
        match f.death {
            None => {
                proof {
                    assert(false);
                }
            },
            Some(cb) => {
                if id != game.player_id {
                    proof {
                        lemma_monsters_xp_bounds(g1.objects, g1.player_id);
                        assert(xp_contrib(g1.objects[id as int], id as int, g1.player_id)
                            == f.xp as int);
                        assert(g1.player().fighter->Some_0.xp + f.xp <= xp_potential(g1));
                        assert(g1.objects[g1.player_id] == game.objects@[game.player_id as int]@);
                    }
                    let pid = game.player_id;
                    match &game.objects[pid].fighter {
                        Some(pf) => {
                            let npf = Fighter { xp: pf.xp + f.xp, ..*pf };
                            game.set_fighter(pid, Some(npf));
                        },
                        None => {
                            proof {
                                assert(false);
                            }
                        },
                    }
                }
                let ghost g2 = game@;
                proof {
                    assert(g2.objects[id as int].fighter is Some);
                    assert(g2.messages.len() <= crate::consts::MSG_HEIGHT);
                }
                cb.callback(id, game);
                proof {
                    let gf = final(game)@;
                    assert(gf == take_damage_step(g0, id as int, damage as int));
                    lemma_wf_after_death(g0, g1, g2, gf, id as int, damage as int, f, cb);
                }
            },
        }
    } else {
        proof {
            let gf = game@;
            assert forall|i: int| 0 <= i < gf.objects.len() implies gf.entity_ok(i) by {
                assert(g0.entity_ok(i));
            }
            assert forall|i: int|
                0 <= i < gf.objects.len() && crate::game::is_equipped_ent(
                    #[trigger] gf.objects[i],
                ) implies gf.inventory.contains(i) by {
                assert(crate::game::is_equipped_ent(g0.objects[i]));
            }
            assert forall|i: int, j: int|
                #![trigger gf.objects[i].equipment, gf.objects[j].equipment]
                0 <= i < gf.objects.len() && 0 <= j < gf.objects.len() && i != j
                    && crate::game::is_equipped_ent(gf.objects[i]) && crate::game::is_equipped_ent(
                    gf.objects[j],
                ) implies crate::game::slot_of(gf.objects[i]) != crate::game::slot_of(
                gf.objects[j],
            ) by {
                assert(crate::game::is_equipped_ent(g0.objects[i])
                    && crate::game::is_equipped_ent(g0.objects[j]));
                assert(g0.objects[i].equipment == gf.objects[i].equipment);
                assert(g0.objects[j].equipment == gf.objects[j].equipment);
            }
            assert(gf.wf());
        }
    }
}

/// The message reporting a landed attack.
pub open spec fn attack_hit_text(att: ObjectV, tgt: ObjectV, damage: int) -> Seq<char> {
    att.name + " attacks "@ + tgt.name + " for "@ + int_text(damage) + " hit points."@
}

/// The message reporting an attack without effect.
pub open spec fn attack_miss_text(att: ObjectV, tgt: ObjectV) -> Seq<char> {
    att.name + " attacks "@ + tgt.name + " but it has no effect!"@
}

/// The successor state of `attack`: damage is attacker power minus
/// target defense; a positive difference is reported and applied, a
/// zero or negative difference only reports "no effect" and changes no
/// hit points.
pub open spec fn attack_step(g: GameV, attacker: int, target: int) -> GameV {
    let damage = spec_full_stat(g, attacker, BonusKind::Power) - spec_full_stat(
        g,
        target,
        BonusKind::Defense,
    );
    if damage > 0 {
        let gm = GameV {
            messages: log_push(
                g.messages,
                (attack_hit_text(g.objects[attacker], g.objects[target], damage), white_v()),
            ),
            ..g
        };
        take_damage_step(gm, target, damage)
    } else {
        GameV {
            messages: log_push(
                g.messages,
                (attack_miss_text(g.objects[attacker], g.objects[target]), white_v()),
            ),
            ..g
        }
    }
}

/// Resolves one attack. The target, if it fights at all, must still be
/// alive, so the damage subtraction cannot underflow; the engine only
/// ever attacks living targets.
pub fn attack(attacker_id: usize, target_id: usize, game: &mut Game)
    requires
        old(game)@.wf(),
        attacker_id < old(game)@.objects.len(),
        target_id < old(game)@.objects.len(),
        old(game)@.objects[target_id as int].fighter matches Some(f) ==> f.hp >= 1,
    ensures
        final(game)@ == attack_step(old(game)@, attacker_id as int, target_id as int),
        final(game)@.wf(),
        spec_full_stat(old(game)@, attacker_id as int, BonusKind::Power) - spec_full_stat(
            old(game)@,
            target_id as int,
            BonusKind::Defense,
        ) <= 0 ==> final(game)@.objects == old(game)@.objects,
        final(game)@.objects.len() == old(game)@.objects.len(),
        forall|j: int|
            0 <= j < old(game)@.objects.len() && j != target_id as int
                ==> #[trigger] final(game)@.objects[j].ai == old(game)@.objects[j].ai,
{
    let ghost g0 = old(game)@;
    let damage = full_power(attacker_id, game) - full_defense(target_id, game);
    proof {
        assert(g0.objects[attacker_id as int] == game.objects@[attacker_id as int]@);
        assert(g0.objects[target_id as int] == game.objects@[target_id as int]@);
    }
    let mut msg = String::from_str("");
    msg.append(game.objects[attacker_id].name.as_str());
    msg.append(" attacks ");
    msg.append(game.objects[target_id].name.as_str());
    if damage > 0 {
        msg.append(" for ");
        let dmg_txt = i32_text(damage);
        msg.append(dmg_txt.as_str());
        msg.append(" hit points.");
        proof {
            reveal_strlit("");
            assert(msg@ =~= attack_hit_text(
                g0.objects[attacker_id as int],
                g0.objects[target_id as int],
                damage as int,
            ));
        }
        game.message(msg, colors::white());
        proof {
            crate::game::lemma_wf_log_only(g0, game@);
            assert(g0.entity_ok(target_id as int));
            assert(g0.player_ok());
        }
        take_damage(target_id, damage, game);
    } else {
        msg.append(" but it has no effect!");
        proof {
            reveal_strlit("");
            assert(msg@ =~= attack_miss_text(
                g0.objects[attacker_id as int],
                g0.objects[target_id as int],
            ));
        }
        game.message(msg, colors::white());
        proof {
            crate::game::lemma_wf_log_only(g0, game@);
        }
    }
}

/// The successor state of `move_by`: the entity steps to the
/// destination when neither the map nor a blocking entity refuses it,
/// and stays put otherwise.
pub open spec fn move_by_step(g: GameV, id: int, dx: int, dy: int) -> GameV {
    let o = g.objects[id];
    if !spec_is_blocked(g, o.x + dx, o.y + dy) {
        GameV {
            objects: g.objects.update(
                id,
                ObjectV { x: (o.x + dx) as i32, y: (o.y + dy) as i32, ..o },
            ),
            ..g
        }
    } else {
        g
    }
}

/// Moves the entity by one step if the destination is not blocked;
/// reports whether it moved.
pub fn move_by(id: usize, dx: i32, dy: i32, game: &mut Game) -> (moved: bool)
    requires
        old(game)@.wf(),
        id < old(game)@.objects.len(),
        -1 <= dx <= 1,
        -1 <= dy <= 1,
    ensures
        final(game)@ == move_by_step(old(game)@, id as int, dx as int, dy as int),
        moved == !spec_is_blocked(
            old(game)@,
            old(game)@.objects[id as int].x + dx,
            old(game)@.objects[id as int].y + dy,
        ),
        final(game)@.wf(),
        forall|j: int|
            0 <= j < old(game)@.objects.len()
                ==> #[trigger] final(game)@.objects[j].ai == old(game)@.objects[j].ai,
{
    let ghost g0 = old(game)@;
    proof {
        assert(g0.objects[id as int] == game.objects@[id as int]@);
        assert(g0.entity_ok(id as int));
    }
    let x = game.objects[id].x;
    let y = game.objects[id].y;
    let blocked = is_blocked(x + dx, y + dy, &game.map, &game.objects);
    if !blocked {
        proof {
            // an unblocked tile is never on the border ring
            if crate::gamemap::on_border(x + dx, y + dy) {
                assert(g0.map[x + dx][y + dy].blocked);
            }
        }
        game.set_object_pos(id, x + dx, y + dy);
        proof {
            let gf = game@;
            crate::game::lemma_xp_potential_update_same_fighter(
                g0,
                id as int,
                gf.objects[id as int],
            );
            assert forall|i: int| 0 <= i < gf.objects.len() implies gf.entity_ok(i) by {
                assert(g0.entity_ok(i));
            }
            assert forall|i: int|
                0 <= i < gf.objects.len() && crate::game::is_equipped_ent(
                    #[trigger] gf.objects[i],
                ) implies gf.inventory.contains(i) by {
                assert(crate::game::is_equipped_ent(g0.objects[i]));
            }
            assert forall|i: int, j: int|
                #![trigger gf.objects[i].equipment, gf.objects[j].equipment]
                0 <= i < gf.objects.len() && 0 <= j < gf.objects.len() && i != j
                    && crate::game::is_equipped_ent(gf.objects[i]) && crate::game::is_equipped_ent(
                    gf.objects[j],
                ) implies crate::game::slot_of(gf.objects[i]) != crate::game::slot_of(
                gf.objects[j],
            ) by {
                assert(crate::game::is_equipped_ent(g0.objects[i])
                    && crate::game::is_equipped_ent(g0.objects[j]));
                assert(g0.objects[i].equipment == gf.objects[i].equipment);
                assert(g0.objects[j].equipment == gf.objects[j].equipment);
            }
            assert(gf.wf());
        }
    }
    !blocked
}

/// The per-axis step of one grid move toward a target: the axis
/// contributes a unit step exactly when its share of the distance is at
/// least half, i.e. when `4 * delta^2 >= dist_sq`.
pub open spec fn step_toward(delta: int, dist_sq: int) -> int {
    if dist_sq > 0 && 4 * delta * delta >= dist_sq {
        if delta > 0 {
            1
        } else if delta < 0 {
            -1
        } else {
            0
        }
    } else {
        0
    }
}

/// Moves the entity one grid step toward `(target_x, target_y)`, if
/// the stepped-to cell is not blocked.
pub fn move_towards(id: usize, target_x: i32, target_y: i32, game: &mut Game)
    requires
        old(game)@.wf(),
        id < old(game)@.objects.len(),
        in_map(target_x as int, target_y as int),
    ensures
        ({
            let o = old(game)@.objects[id as int];
            let d = crate::geom::spec_dist_sq(
                o.x as int,
                o.y as int,
                target_x as int,
                target_y as int,
            );
            final(game)@ == move_by_step(
                old(game)@,
                id as int,
                step_toward(target_x - o.x, d),
                step_toward(target_y - o.y, d),
            )
        }),
        final(game)@.wf(),
        forall|j: int|
            0 <= j < old(game)@.objects.len()
                ==> #[trigger] final(game)@.objects[j].ai == old(game)@.objects[j].ai,
{
    let ghost g0 = old(game)@;
    proof {
        assert(g0.objects[id as int] == game.objects@[id as int]@);
        assert(g0.entity_ok(id as int));
    }
    let x = game.objects[id].x;
    let y = game.objects[id].y;
    let d = crate::geom::dist_sq(x, y, target_x, target_y);
    let ddx: i64 = target_x as i64 - x as i64;
    let ddy: i64 = target_y as i64 - y as i64;
    assert(0 <= 4 * ddx * ddx <= 160_000_000_000 && 0 <= 4 * ddy * ddy <= 160_000_000_000)
        by (nonlinear_arith)
        requires
            -200_000 <= ddx <= 200_000,
            -200_000 <= ddy <= 200_000,
    ;
    let sx: i32 = if d > 0 && 4 * ddx * ddx >= d {
        if ddx > 0 {
            1
        } else if ddx < 0 {
            -1
        } else {
            0
        }
    } else {
        0
    };
    let sy: i32 = if d > 0 && 4 * ddy * ddy >= d {
        if ddy > 0 {
            1
        } else if ddy < 0 {
            -1
        } else {
            0
        }
    } else {
        0
    };
    let _ = move_by(id, sx, sy, game);
}

/// The first arena index holding a fighter standing at `(x, y)`,
/// scanning from `start`.
pub open spec fn spec_find_fighter_at(objs: Seq<ObjectV>, x: int, y: int, start: int) -> Option<
    int,
>
    decreases objs.len() - start,
{
    if start >= objs.len() {
        None
    } else if objs[start].fighter is Some && objs[start].x == x && objs[start].y == y {
        Some(start)
    } else {
        spec_find_fighter_at(objs, x, y, start + 1)
    }
}

/// Finds the first fighter standing at `(x, y)`, scanning the arena in
/// ascending id order from `start`.
pub fn find_fighter_at(objects: &Vec<Object>, x: i32, y: i32, start: usize) -> (r: Option<usize>)
    ensures
        match spec_find_fighter_at(objs_view(objects@), x as int, y as int, start as int) {
            Some(i) => r matches Some(u) && u as int == i,
            None => r is None,
        },
    decreases objects@.len() - start,
{
    if start >= objects.len() {
        None
    } else {
        let o = &objects[start];
        proof {
            assert(objs_view(objects@)[start as int] == objects@[start as int]@);
        }
        if o.fighter.is_some() && o.x == x && o.y == y {
            Some(start)
        } else {
            find_fighter_at(objects, x, y, start + 1)
        }
    }
}

/// The successor state of `player_move_or_attack`: a fighter on the
/// destination tile is attacked (attack takes precedence over moving
/// onto the tile); otherwise the player tries to move there, and only a
/// successful move marks the visibility cache stale.
pub open spec fn player_move_or_attack_step(g: GameV, dx: int, dy: int) -> GameV {
    let px = g.player().x + dx;
    let py = g.player().y + dy;
    match spec_find_fighter_at(g.objects, px, py, 0) {
        Some(t) => attack_step(g, g.player_id, t),
        None => {
            if !spec_is_blocked(g, px, py) {
                GameV { fov_recompute: true, ..move_by_step(g, g.player_id, dx, dy) }
            } else {
                move_by_step(g, g.player_id, dx, dy)
            }
        },
    }
}

/// Resolves one player movement intent: attack the fighter on the
/// destination tile, or step onto it.
pub fn player_move_or_attack(dx: i32, dy: i32, game: &mut Game)
    requires
        old(game)@.wf(),
        old(game)@.state is Playing,
        -1 <= dx <= 1,
        -1 <= dy <= 1,
    ensures
        final(game)@ == player_move_or_attack_step(old(game)@, dx as int, dy as int),
        final(game)@.wf(),
{
    let ghost g0 = old(game)@;
    proof {
        assert(g0.entity_ok(g0.player_id));
        assert(g0.objects[g0.player_id] == game.objects@[game.player_id as int]@);
    }
    let x = game.objects[game.player_id].x + dx;
    let y = game.objects[game.player_id].y + dy;
    let target = find_fighter_at(&game.objects, x, y, 0);
    match target {
        Some(target_id) => {
            proof {
                lemma_find_fighter_at_in_range(g0.objects, x as int, y as int, 0);
                // whoever stands there is alive: a monster fighter has
                // positive hit points, and so does the player in play
                assert(g0.entity_ok(target_id as int));
                assert(g0.player_ok());
                match g0.objects[target_id as int].fighter {
                    Some(tf) => {
                        if target_id as int != g0.player_id {
                            assert(tf.death is Some);
                            assert(tf.death != Some(DeathCallback::Player));
                        }
                    },
                    None => {},
                }
            }
            attack(game.player_id, target_id, game);
        },
        None => {
            let moved = move_by(game.player_id, dx, dy, game);
            if moved {
                let ghost gmid = game@;
                game.fov_recompute = true;
                proof {
                    let gf = game@;
                    assert forall|i: int| 0 <= i < gf.objects.len() implies gf.entity_ok(i) by {
                        assert(gmid.entity_ok(i));
                    }
                    assert(xp_potential(gf) == xp_potential(gmid));
                    assert(gf.wf());
                }
            }
        },
    }
}

/// A found fighter index lies inside the arena.
proof fn lemma_find_fighter_at_in_range(objs: Seq<ObjectV>, x: int, y: int, start: int)
    ensures
        spec_find_fighter_at(objs, x, y, start) matches Some(i) ==> start <= i < objs.len(),
    decreases objs.len() - start,
{
    if start < objs.len() {
        lemma_find_fighter_at_in_range(objs, x, y, start + 1);
    }
}

/// Re-establishes well-formedness after a lethal hit: the award moves
/// experience from the dying entity to the player (total unchanged),
/// and the death transform strips or preserves capabilities as the
/// invariant demands.
proof fn lemma_wf_after_death(
    g0: GameV,
    g1: GameV,
    g2: GameV,
    gf: GameV,
    id: int,
    damage: int,
    f: Fighter,
    cb: DeathCallback,
)
    requires
        g0.wf(),
        0 <= id < g0.objects.len(),
        g0.objects[id].fighter == Some(f),
        damage <= 0 || f.hp - damage >= i32::MIN,
        g1 == (if damage > 0 {
            GameV { objects: g0.objects.update(id, with_hp(g0.objects[id], f.hp - damage)), ..g0 }
        } else {
            g0
        }),
        g2 == (if id != g0.player_id {
            award_step(g1, f.xp as int)
        } else {
            g1
        }),
        gf == (match cb {
            DeathCallback::Monster => monster_death_step(g2, id),
            DeathCallback::Player => player_death_step(g2, id),
        }),
        (if damage > 0 {
            f.hp - damage
        } else {
            f.hp as int
        }) <= 0,
        f.death == Some(cb),
    ensures
        gf.wf(),
{
    assert(g0.entity_ok(id));
    assert(g0.entity_ok(g0.player_id));
    // the Player tag belongs to the player alone
    if cb is Player {
        assert(id == g0.player_id);
    } else {
        assert(id != g0.player_id) by {
            if id == g0.player_id {
                assert(g0.player().fighter->Some_0.death == Some(DeathCallback::Player));
            }
        }
    }
    // experience accounting
    assert forall|i: int|
        0 <= i < g0.objects.len() implies match (#[trigger] g0.objects[i]).fighter {
        Some(ff) => ff.xp >= 0,
        None => true,
    } by {
        assert(g0.entity_ok(i));
    }
    lemma_monsters_xp_bounds(g0.objects, g0.player_id);
    let pid = g0.player_id;
    lemma_monsters_xp_update(g0.objects, pid, id, g1.objects[id]);
    assert(monsters_xp(g1.objects, pid) == monsters_xp(g0.objects, pid));
    if id != pid {
        assert(xp_contrib(g0.objects[id], id, pid) == f.xp as int);
        assert(f.xp <= monsters_xp(g0.objects, pid));
        assert(g0.player().fighter->Some_0.xp + f.xp <= xp_potential(g0) <= XP_POTENTIAL_CAP);
        lemma_monsters_xp_update(g1.objects, pid, pid, g2.objects[pid]);
        assert(monsters_xp(g2.objects, pid) == monsters_xp(g1.objects, pid));
        lemma_monsters_xp_update(g2.objects, pid, id, gf.objects[id]);
        assert(xp_contrib(g2.objects[id], id, pid) == f.xp as int);
        assert(xp_contrib(gf.objects[id], id, pid) == 0);
        assert(monsters_xp(gf.objects, pid) == monsters_xp(g0.objects, pid) - f.xp);
        assert(gf.objects[pid].fighter->Some_0.xp == g0.player().fighter->Some_0.xp + f.xp);
        assert(xp_potential(gf) == xp_potential(g0));
    } else {
        lemma_monsters_xp_update(g2.objects, pid, id, gf.objects[id]);
        assert(xp_contrib(gf.objects[id], id, pid) == 0 == xp_contrib(g2.objects[id], id, pid));
        assert(monsters_xp(gf.objects, pid) == monsters_xp(g0.objects, pid));
        assert(xp_potential(gf) == xp_potential(g0));
    }
    // per-entity conditions
    assert forall|i: int| 0 <= i < gf.objects.len() implies gf.entity_ok(i) by {
        assert(g0.entity_ok(i));
        if i == id || i == g0.player_id {
            assert(xp_contrib(g0.objects[id], id, g0.player_id) <= monsters_xp(
                g0.objects,
                g0.player_id,
            ));
        }
    }
    // inventory conditions: equipment flags are untouched
    assert forall|i: int|
        0 <= i < gf.objects.len() && crate::game::is_equipped_ent(
            #[trigger] gf.objects[i],
        ) implies gf.inventory.contains(i) by {
        assert(crate::game::is_equipped_ent(g0.objects[i]));
    }
    assert forall|i: int, j: int|
        #![trigger gf.objects[i].equipment, gf.objects[j].equipment]
        0 <= i < gf.objects.len() && 0 <= j < gf.objects.len() && i != j
            && crate::game::is_equipped_ent(gf.objects[i]) && crate::game::is_equipped_ent(
            gf.objects[j],
        ) implies crate::game::slot_of(gf.objects[i]) != crate::game::slot_of(gf.objects[j]) by {
        assert(crate::game::is_equipped_ent(g0.objects[i]) && crate::game::is_equipped_ent(
            g0.objects[j],
        ));
        assert(g0.objects[i].equipment == gf.objects[i].equipment);
        assert(g0.objects[j].equipment == gf.objects[j].equipment);
    }
    assert(gf.wf());
}

/// An entity without a Fighter capability can neither be damaged nor
/// die (a second time): damage leaves the whole state untouched.
pub proof fn lemma_no_fighter_no_damage(g: GameV, id: int, damage: int)
    requires
        g.objects[id].fighter is None,
    ensures
        take_damage_step(g, id, damage) == g,
{
}

/// A non-positive damage amount never changes hit points.
pub proof fn lemma_nonpositive_damage_keeps_hp(g: GameV, id: int, damage: int)
    requires
        g.ids_ok(),
        0 <= id < g.objects.len(),
        damage <= 0,
    ensures
        take_damage_step(g, id, damage).objects[id].fighter is Some ==> take_damage_step(
            g,
            id,
            damage,
        ).objects[id].fighter->Some_0.hp == g.objects[id].fighter->Some_0.hp,
{
}

/// Attack damage is attacker power minus target defense, floored at
/// zero: a non-positive difference emits only the "no effect" report.
pub proof fn lemma_attack_without_effect(g: GameV, attacker: int, target: int)
    requires
        spec_full_stat(g, attacker, BonusKind::Power) - spec_full_stat(
            g,
            target,
            BonusKind::Defense,
        ) <= 0,
    ensures
        attack_step(g, attacker, target).objects == g.objects,
        attack_step(g, attacker, target).state == g.state,
{
}

} // verus!
