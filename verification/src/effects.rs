//! The five item effects, the targeting queries they rely on, and the
//! use-item dispatcher. Every effect either fully applies or is
//! cancelled with no mutation beyond a message.

use vstd::prelude::*;
use vstd::string::StringExecFns;
use crate::colors;
use crate::colors::{red_v, green_v, white_v, orange_v, light_blue_v, light_cyan_v,
    light_violet_v};
use crate::combat::{take_damage, take_damage_step};
use crate::consts::{HEAL_AMOUNT, LIGHTNING_DAMAGE, LIGHTNING_RANGE, CONFUSE_RANGE,
    CONFUSE_NUM_TURNS, FIREBALL_RADIUS, FIREBALL_DAMAGE, EQUIP_TOTAL_LIMIT, BONUS_LIMIT,
    INVENTORY_CAPACITY};
use crate::entity::{Fighter, Item, MonsterAI, MonsterAIType, ObjectV};
use crate::fov::{Fov, fov_view};
use crate::game::{Game, GameV, BonusKind, spec_full_stat, full_max_hp, log_push, objs_view,
    lemma_sum_bonus_bound, lemma_xp_potential_update_same_fighter, sum_bonus};
use crate::geom::spec_dist_sq;
use crate::inventory::{toggle_equip, dequip_step, equip_step};
use crate::text::int_text;

verus! {

/// Whether an item applied or was cancelled; a cancelled item is not
/// consumed.
#[derive(Clone, Copy, PartialEq, Eq, Structural, Debug)]
pub enum UseResult {
    Used,
    Cancelled,
}

/// What the player picked while targeting: nothing was asked for, a
/// map tile, an entity — or the targeting was aborted.
#[derive(Clone, Copy, PartialEq, Eq, Structural, Debug)]
pub enum TargetChoice {
    Untargeted,
    TilePick(i32, i32),
    MonsterPick(usize),
    Aborted,
}

/// What kind of interactive target an item needs before use.
#[derive(Clone, Copy, PartialEq, Eq, Structural, Debug)]
pub enum TargetKind {
    NoTargeting,
    TileTarget,
    MonsterTarget,
}

/// The targeting an item's effect asks for: fireball wants a tile,
/// confusion wants an entity, the rest apply immediately.
pub fn item_target_kind(item: Item) -> (k: TargetKind)
    ensures
        k == (match item {
            Item::Fireball => TargetKind::TileTarget,
            Item::Confuse => TargetKind::MonsterTarget,
            _ => TargetKind::NoTargeting,
        }),
{
    match item {
        Item::Fireball => TargetKind::TileTarget,
        Item::Confuse => TargetKind::MonsterTarget,
        _ => TargetKind::NoTargeting,
    }
}

/// The tile a choice carries, if any.
pub open spec fn tile_of(choice: TargetChoice) -> Option<(int, int)> {
    match choice {
        TargetChoice::TilePick(x, y) => Some((x as int, y as int)),
        _ => None,
    }
}

/// The entity a choice carries, if any.
pub open spec fn monster_of(choice: TargetChoice) -> Option<usize> {
    match choice {
        TargetChoice::MonsterPick(m) => Some(m),
        _ => None,
    }
}

/// A valid lightning or confusion target: a fighter other than the
/// player, standing on a visible cell.
pub open spec fn is_monster_target(g: GameV, fv: Seq<Seq<bool>>, i: int) -> bool {
    &&& 0 <= i < g.objects.len()
    &&& i != g.player_id
    &&& g.objects[i].fighter is Some
    &&& fv[g.objects[i].x as int][g.objects[i].y as int]
}

/// The scan for the closest visible monster: ascending over the arena,
/// keeping the strictly closest candidate seen so far (the earliest of
/// equally close ones wins).
pub open spec fn closest_scan(
    g: GameV,
    fv: Seq<Seq<bool>>,
    i: int,
    best: Option<int>,
    best_dsq: int,
) -> Option<int>
    decreases g.objects.len() - i,
{
    if i < 0 || i >= g.objects.len() {
        best
    } else {
        let d = spec_dist_sq(
            g.player().x as int,
            g.player().y as int,
            g.objects[i].x as int,
            g.objects[i].y as int,
        );
        if is_monster_target(g, fv, i) && d < best_dsq {
            closest_scan(g, fv, i + 1, Some(i), d)
        } else {
            closest_scan(g, fv, i + 1, best, best_dsq)
        }
    }
}

/// The closest visible monster within `max_range` of the player
/// (measured as a strict bound one past the range, matching the
/// squared-distance comparison `d < (max_range + 1)^2`).
pub open spec fn spec_closest_monster(g: GameV, fv: Seq<Seq<bool>>, max_range: int) -> Option<
    int,
> {
    closest_scan(g, fv, 0, None, (max_range + 1) * (max_range + 1))
}

/// A scan result is a valid monster target.
proof fn lemma_closest_scan_valid(
    g: GameV,
    fv: Seq<Seq<bool>>,
    i: int,
    best: Option<int>,
    best_dsq: int,
)
    requires
        best matches Some(b) ==> is_monster_target(g, fv, b),
    ensures
        closest_scan(g, fv, i, best, best_dsq) matches Some(m) ==> is_monster_target(g, fv, m),
    decreases g.objects.len() - i,
{
    if 0 <= i < g.objects.len() {
        let d = spec_dist_sq(
            g.player().x as int,
            g.player().y as int,
            g.objects[i].x as int,
            g.objects[i].y as int,
        );
        if is_monster_target(g, fv, i) && d < best_dsq {
            lemma_closest_scan_valid(g, fv, i + 1, Some(i), d);
        } else {
            lemma_closest_scan_valid(g, fv, i + 1, best, best_dsq);
        }
    }
}

/// Finds the closest fighter to the player — the player excluded —
/// that the oracle currently sees, up to `max_range`.
pub fn closest_monster(max_range: i32, game: &Game, fov: &Fov) -> (r: Option<usize>)
    requires
        game@.wf(),
        fov.wf(),
        0 <= max_range <= 100,
    ensures
        match spec_closest_monster(game@, fov_view(*fov), max_range as int) {
            Some(m) => r matches Some(u) && u as int == m && is_monster_target(
                game@,
                fov_view(*fov),
                m,
            ),
            None => r is None,
        },
{
    let ghost g = game@;
    let ghost fv = fov_view(*fov);
    proof {
        assert(g.entity_ok(g.player_id));
        assert(g.objects[g.player_id] == game.objects@[game.player_id as int]@);
    }
    let px = game.objects[game.player_id].x;
    let py = game.objects[game.player_id].y;
    let mut closest_enemy: Option<usize> = None;
    let mr1: i64 = (max_range + 1) as i64;
    assert(1 <= mr1 * mr1 <= 10201) by (nonlinear_arith)
        requires
            1 <= mr1 <= 101,
    ;
    let mut closest_dsq: i64 = mr1 * mr1;
    let mut i: usize = 0;
    while i < game.objects.len()
        invariant
            game@ == g,
            fov.wf(),
            fv == fov_view(*fov),
            g.wf(),
            px == g.player().x,
            py == g.player().y,
            0 <= i <= g.objects.len(),
            match closest_enemy {
                Some(u) => u < g.objects.len() && is_monster_target(g, fv, u as int),
                None => true,
            },
            spec_closest_monster(g, fv, max_range as int) == closest_scan(
                g,
                fv,
                i as int,
                match closest_enemy {
                    Some(u) => Some(u as int),
                    None => None,
                },
                closest_dsq as int,
            ),
        decreases g.objects.len() - i,
    {
        proof {
            assert(g.objects[i as int] == game.objects@[i as int]@);
            assert(g.entity_ok(i as int));
        }
        let ox = game.objects[i].x;
        let oy = game.objects[i].y;
        proof {
            assert(g.entity_ok(g.player_id));
            assert(ox == g.objects[i as int].x && oy == g.objects[i as int].y);
            assert(1 <= ox <= crate::consts::MAP_WIDTH - 2);
            assert(1 <= oy <= crate::consts::MAP_HEIGHT - 2);
        }
        let candidate = i != game.player_id && game.objects[i].fighter.is_some() && fov.is_in_fov(
            ox,
            oy,
        );
        if candidate {
            let d = crate::geom::dist_sq(px, py, ox, oy);
            if d < closest_dsq {
                closest_enemy = Some(i);
                closest_dsq = d;
            }
        }
        i = i + 1;
    }
    closest_enemy
}

/// The message refusing a heal at full health.
pub open spec fn full_health_text() -> Seq<char> {
    "You are already at full health."@
}

/// The message reporting a heal.
pub open spec fn healed_text() -> Seq<char> {
    "Your wounds start to feel better!"@
}

/// The player's fighter after healing by `amount`, capped at `max_hp`.
pub open spec fn healed_fighter(f: Fighter, amount: int, max_hp: int) -> Fighter {
    Fighter {
        hp: if f.hp + amount > max_hp {
            max_hp as i32
        } else {
            (f.hp + amount) as i32
        },
        ..f
    }
}

/// The successor state of `cast_heal`: cancelled (message only) at
/// exactly full health, otherwise the player heals by the fixed amount,
/// capped at full maximum hit points.
pub open spec fn cast_heal_step(g: GameV) -> GameV {
    let max_hp = spec_full_stat(g, g.player_id, BonusKind::MaxHp);
    match g.player().fighter {
        Some(f) => if f.hp == max_hp {
            GameV { messages: log_push(g.messages, (full_health_text(), red_v())), ..g }
        } else {
            GameV {
                objects: g.objects.update(
                    g.player_id,
                    ObjectV {
                        fighter: Some(healed_fighter(f, HEAL_AMOUNT as int, max_hp)),
                        ..g.player()
                    },
                ),
                messages: log_push(g.messages, (healed_text(), light_violet_v())),
                ..g
            }
        },
        None => g,
    }
}

/// Whether `cast_heal` applies or is cancelled.
pub open spec fn cast_heal_result(g: GameV) -> UseResult {
    match g.player().fighter {
        Some(f) => if f.hp == spec_full_stat(g, g.player_id, BonusKind::MaxHp) {
            UseResult::Cancelled
        } else {
            UseResult::Used
        },
        None => UseResult::Cancelled,
    }
}

/// Heals the player by the fixed amount, capped at full maximum hit
/// points; cancelled — with only a message — when already exactly at
/// full health.
pub fn cast_heal(game: &mut Game) -> (r: UseResult)
    requires
        old(game)@.wf(),
    ensures
        final(game)@ == cast_heal_step(old(game)@),
        r == cast_heal_result(old(game)@),
        final(game)@.objects.len() == old(game)@.objects.len(),
        final(game)@.player_id == old(game)@.player_id,
        final(game)@.stairs_id == old(game)@.stairs_id,
        final(game)@.inventory == old(game)@.inventory,
        forall|i: int|
            0 <= i < old(game)@.objects.len() ==> #[trigger] final(game)@.objects[i].equipment
                == old(game)@.objects[i].equipment,
        final(game)@.wf(),
{
    let ghost g0 = old(game)@;
    proof {
        assert(g0.entity_ok(g0.player_id));
        assert(g0.objects[g0.player_id] == game.objects@[game.player_id as int]@);
    }
    let max_hp = full_max_hp(game.player_id, game);
    let f: Fighter = match &game.objects[game.player_id].fighter {
        Some(f) => *f,
        None => {
            proof {
                assert(false);
            }
            return UseResult::Cancelled;
        },
    };
    if f.hp == max_hp {
        game.message(String::from_str("You are already at full health."), colors::red());
        proof {
            crate::game::lemma_wf_log_only(g0, game@);
        }
        return UseResult::Cancelled;
    }
    game.message(String::from_str("Your wounds start to feel better!"), colors::light_violet());
    let ghost gm = game@;
    proof {
        crate::game::lemma_wf_log_only(g0, gm);
        assert forall|k: int| 0 <= k < g0.inventory.len() implies 0 <= crate::game::equip_bonus(
            g0.objects[#[trigger] g0.inventory[k]],
            BonusKind::MaxHp,
        ) <= BONUS_LIMIT by {
            assert(g0.entity_ok(g0.inventory[k]));
        }
        lemma_sum_bonus_bound(g0.objects, g0.inventory, BonusKind::MaxHp);
        assert(sum_bonus(g0.objects, g0.inventory, BonusKind::MaxHp) <= BONUS_LIMIT
            * INVENTORY_CAPACITY) by (nonlinear_arith)
            requires
                sum_bonus(g0.objects, g0.inventory, BonusKind::MaxHp) <= BONUS_LIMIT
                    * g0.inventory.len(),
                g0.inventory.len() <= INVENTORY_CAPACITY,
                BONUS_LIMIT > 0,
        ;
    }
    let mut nf = f;
    nf.heal(HEAL_AMOUNT, max_hp);
    game.set_fighter(game.player_id, Some(nf));
    proof {
        let gf = game@;
        assert(gf == cast_heal_step(g0));
        lemma_xp_potential_update_same_fighter_hp(gm, g0.player_id, gf.objects[g0.player_id]);
        assert forall|i: int| 0 <= i < gf.objects.len() implies gf.entity_ok(i) by {
            assert(g0.entity_ok(i));
        }
        assert forall|i: int|
            0 <= i < gf.objects.len() && crate::game::is_equipped_ent(
                #[trigger] gf.objects[i],
            ) implies gf.inventory.contains(i) by {
            assert(crate::game::is_equipped_ent(g0.objects[i]));
        }
        assert forall|i: int, j: int|
            #![trigger gf.objects[i].equipment, gf.objects[j].equipment]
            0 <= i < gf.objects.len() && 0 <= j < gf.objects.len() && i != j
                && crate::game::is_equipped_ent(gf.objects[i]) && crate::game::is_equipped_ent(
                gf.objects[j],
            ) implies crate::game::slot_of(gf.objects[i]) != crate::game::slot_of(
            gf.objects[j],
        ) by {
            assert(crate::game::is_equipped_ent(g0.objects[i]) && crate::game::is_equipped_ent(
                g0.objects[j],
            ));
            assert(g0.objects[i].equipment == gf.objects[i].equipment);
            assert(g0.objects[j].equipment == gf.objects[j].equipment);
        }
        assert(gf.wf());
    }
    UseResult::Used
}

/// Healing the player — by any non-negative amount, capped at full
/// maximum hit points — keeps the game well-formed.
pub proof fn lemma_heal_keeps_wf(g0: GameV, g1: GameV, amount: int)
    requires
        g0.wf(),
        0 <= amount,
        g1 == (GameV {
            objects: g0.objects.update(
                g0.player_id,
                ObjectV {
                    fighter: Some(
                        healed_fighter(
                            g0.player().fighter->Some_0,
                            amount,
                            spec_full_stat(g0, g0.player_id, BonusKind::MaxHp),
                        ),
                    ),
                    ..g0.player()
                },
            ),
            ..g0
        }),
    ensures
        g1.wf(),
{
    let max_hp = spec_full_stat(g0, g0.player_id, BonusKind::MaxHp);
    assert(g0.entity_ok(g0.player_id));
    assert forall|k: int| 0 <= k < g0.inventory.len() implies 0 <= crate::game::equip_bonus(
        g0.objects[#[trigger] g0.inventory[k]],
        BonusKind::MaxHp,
    ) <= BONUS_LIMIT by {
        assert(g0.entity_ok(g0.inventory[k]));
    }
    lemma_sum_bonus_bound(g0.objects, g0.inventory, BonusKind::MaxHp);
    assert(sum_bonus(g0.objects, g0.inventory, BonusKind::MaxHp) <= BONUS_LIMIT
        * INVENTORY_CAPACITY) by (nonlinear_arith)
        requires
            sum_bonus(g0.objects, g0.inventory, BonusKind::MaxHp) <= BONUS_LIMIT
                * g0.inventory.len(),
            g0.inventory.len() <= INVENTORY_CAPACITY,
            BONUS_LIMIT > 0,
    ;
    lemma_xp_potential_update_same_fighter_hp(g0, g0.player_id, g1.objects[g0.player_id]);
    assert forall|i: int| 0 <= i < g1.objects.len() implies g1.entity_ok(i) by {
        assert(g0.entity_ok(i));
    }
    assert forall|i: int|
        0 <= i < g1.objects.len() && crate::game::is_equipped_ent(
            #[trigger] g1.objects[i],
        ) implies g1.inventory.contains(i) by {
        assert(crate::game::is_equipped_ent(g0.objects[i]));
    }
    assert forall|i: int, j: int|
        #![trigger g1.objects[i].equipment, g1.objects[j].equipment]
        0 <= i < g1.objects.len() && 0 <= j < g1.objects.len() && i != j
            && crate::game::is_equipped_ent(g1.objects[i]) && crate::game::is_equipped_ent(
            g1.objects[j],
        ) implies crate::game::slot_of(g1.objects[i]) != crate::game::slot_of(g1.objects[j]) by {
        assert(crate::game::is_equipped_ent(g0.objects[i]) && crate::game::is_equipped_ent(
            g0.objects[j],
        ));
        assert(g0.objects[i].equipment == g1.objects[i].equipment);
        assert(g0.objects[j].equipment == g1.objects[j].equipment);
    }
    assert forall|k: int|
        0 <= k < g1.inventory.len() implies g1.objects[#[trigger] g1.inventory[k]].fighter is None
            && g1.objects[g1.inventory[k]].ai is None by {
        assert(g0.objects[g0.inventory[k]].fighter is None);
        assert(g0.objects[g0.inventory[k]].ai is None);
        assert(g1.inventory[k] != g0.player_id);
    }
    assert(g1.wf());
}

/// The experience in play does not change when an entity's fighter
/// changes only in hit points.
pub proof fn lemma_xp_potential_update_same_fighter_hp(g: GameV, id: int, o: ObjectV)
    requires
        0 <= id < g.objects.len(),
        0 <= g.player_id < g.objects.len(),
        match (o.fighter, g.objects[id].fighter) {
            (Some(a), Some(b)) => a.xp == b.xp,
            (None, None) => true,
            _ => false,
        },
    ensures
        crate::game::xp_potential(GameV { objects: g.objects.update(id, o), ..g })
            == crate::game::xp_potential(g),
{
    crate::game::lemma_monsters_xp_update(g.objects, g.player_id, id, o);
}

/// The message reporting a lightning strike.
pub open spec fn lightning_text(name: Seq<char>) -> Seq<char> {
    "A lightning bolt strikes the "@ + name + " with a loud thunder!\n The damage is "@ + int_text(
        LIGHTNING_DAMAGE as int,
    ) + " hit points."@
}

/// The message refusing a lightning cast with no target in reach.
pub open spec fn no_enemy_text() -> Seq<char> {
    "No enemy is close enough to strike."@
}

/// The successor state of `cast_lightning`: the closest visible monster
/// in range takes the fixed damage; with none, only a refusal message.
pub open spec fn cast_lightning_step(g: GameV, fv: Seq<Seq<bool>>) -> GameV {
    match spec_closest_monster(g, fv, LIGHTNING_RANGE as int) {
        Some(m) => take_damage_step(
            GameV {
                messages: log_push(g.messages, (lightning_text(g.objects[m].name), light_blue_v())),
                ..g
            },
            m,
            LIGHTNING_DAMAGE as int,
        ),
        None => GameV { messages: log_push(g.messages, (no_enemy_text(), red_v())), ..g },
    }
}

/// Whether `cast_lightning` applies or is cancelled.
pub open spec fn cast_lightning_result(g: GameV, fv: Seq<Seq<bool>>) -> UseResult {
    if spec_closest_monster(g, fv, LIGHTNING_RANGE as int) is Some {
        UseResult::Used
    } else {
        UseResult::Cancelled
    }
}

/// Strikes the closest visible monster in range with fixed damage;
/// cancelled — with only a message — when no monster is in reach.
pub fn cast_lightning(game: &mut Game, fov: &Fov) -> (r: UseResult)
    requires
        old(game)@.wf(),
        fov.wf(),
    ensures
        final(game)@ == cast_lightning_step(old(game)@, fov_view(*fov)),
        r == cast_lightning_result(old(game)@, fov_view(*fov)),
        final(game)@.objects.len() == old(game)@.objects.len(),
        final(game)@.player_id == old(game)@.player_id,
        final(game)@.stairs_id == old(game)@.stairs_id,
        final(game)@.inventory == old(game)@.inventory,
        forall|i: int|
            0 <= i < old(game)@.objects.len() ==> #[trigger] final(game)@.objects[i].equipment
                == old(game)@.objects[i].equipment,
        final(game)@.wf(),
{
    let ghost g0 = old(game)@;
    let monster_id = closest_monster(LIGHTNING_RANGE, game, fov);
    match monster_id {
        Some(monster_id) => {
            proof {
                assert(g0.objects[monster_id as int] == game.objects@[monster_id as int]@);
                assert(g0.entity_ok(monster_id as int));
            }
            let mut msg = String::from_str("A lightning bolt strikes the ");
            msg.append(game.objects[monster_id].name.as_str());
            msg.append(" with a loud thunder!\n The damage is ");
            let dmg_txt = crate::text::i32_text(LIGHTNING_DAMAGE);
            msg.append(dmg_txt.as_str());
            msg.append(" hit points.");
            proof {
                assert(msg@ =~= lightning_text(g0.objects[monster_id as int].name));
            }
            game.message(msg, colors::light_blue());
            proof {
                crate::game::lemma_wf_log_only(g0, game@);
            }
            take_damage(monster_id, LIGHTNING_DAMAGE, game);
            UseResult::Used
        },
        None => {
            game.message(String::from_str("No enemy is close enough to strike."), colors::red());
            proof {
                crate::game::lemma_wf_log_only(g0, game@);
            }
            UseResult::Cancelled
        },
    }
}

/// The prompt asking for a fireball target tile.
pub open spec fn fireball_prompt_text() -> Seq<char> {
    "Left-click a target tile for the fireball, or right-click to cancel."@
}

/// The message reporting the explosion.
pub open spec fn fireball_explodes_text() -> Seq<char> {
    "The fireball explodes, burning everything within "@ + int_text(FIREBALL_RADIUS as int)
        + " tiles!"@
}

/// The message reporting one burned entity.
pub open spec fn burned_text(name: Seq<char>) -> Seq<char> {
    "The "@ + name + " gets burned for "@ + int_text(FIREBALL_DAMAGE as int) + " hit points."@
}

/// Whether an entity stands within the blast radius of `(tx, ty)`.
pub open spec fn in_blast(o: ObjectV, tx: int, ty: int) -> bool {
    spec_dist_sq(o.x as int, o.y as int, tx, ty) <= FIREBALL_RADIUS * FIREBALL_RADIUS
}

/// The fold of the blast over the arena from index `i` to `n`: every
/// fighter in radius — the player included — is reported burned and
/// takes the fixed damage, in ascending id order.
pub open spec fn fireball_burn(g: GameV, tx: int, ty: int, i: int, n: int) -> GameV
    decreases n - i,
{
    if i < 0 || i >= n {
        g
    } else {
        let o = g.objects[i];
        let g1 = if in_blast(o, tx, ty) && o.fighter is Some {
            take_damage_step(
                GameV { messages: log_push(g.messages, (burned_text(o.name), orange_v())), ..g },
                i,
                FIREBALL_DAMAGE as int,
            )
        } else {
            g
        };
        fireball_burn(g1, tx, ty, i + 1, n)
    }
}

/// The successor state of `cast_fireball`: the prompt is always
/// logged; with a target, the explosion is reported and the blast fold
/// runs; aborted targeting changes nothing else.
pub open spec fn cast_fireball_step(g: GameV, target: Option<(int, int)>) -> GameV {
    let gp = GameV { messages: log_push(g.messages, (fireball_prompt_text(), light_cyan_v())), ..g };
    match target {
        None => gp,
        Some((tx, ty)) => {
            let ge = GameV {
                messages: log_push(gp.messages, (fireball_explodes_text(), orange_v())),
                ..gp
            };
            fireball_burn(ge, tx, ty, 0, ge.objects.len() as int)
        },
    }
}

/// Burns every fighter within the blast radius of the chosen tile
/// (the player included); cancelled when the targeting was aborted.
#[verifier::rlimit(100)]
pub fn cast_fireball(game: &mut Game, target: Option<(i32, i32)>) -> (r: UseResult)
    requires
        old(game)@.wf(),
        old(game)@.state is Playing,
        target matches Some(t) ==> crate::gamemap::in_map(t.0 as int, t.1 as int),
    ensures
        final(game)@ == cast_fireball_step(
            old(game)@,
            match target {
                Some(t) => Some((t.0 as int, t.1 as int)),
                None => None,
            },
        ),
        r == (if target is Some {
            UseResult::Used
        } else {
            UseResult::Cancelled
        }),
        final(game)@.objects.len() == old(game)@.objects.len(),
        final(game)@.player_id == old(game)@.player_id,
        final(game)@.stairs_id == old(game)@.stairs_id,
        final(game)@.inventory == old(game)@.inventory,
        forall|i: int|
            0 <= i < old(game)@.objects.len() ==> #[trigger] final(game)@.objects[i].equipment
                == old(game)@.objects[i].equipment,
        final(game)@.wf(),
{
    let ghost g0 = old(game)@;
    game.message(
        String::from_str("Left-click a target tile for the fireball, or right-click to cancel."),
        colors::light_cyan(),
    );
    proof {
        crate::game::lemma_wf_log_only(g0, game@);
    }
    let (tx, ty) = match target {
        Some(t) => t,
        None => {
            return UseResult::Cancelled;
        },
    };
    let mut msg = String::from_str("The fireball explodes, burning everything within ");
    let r_txt = crate::text::i32_text(FIREBALL_RADIUS);
    msg.append(r_txt.as_str());
    msg.append(" tiles!");
    proof {
        assert(msg@ =~= fireball_explodes_text());
    }
    game.message(msg, colors::orange());
    let ghost ge = game@;
    proof {
        crate::game::lemma_wf_log_only(g0, ge);
    }
    let n = game.objects.len();
    proof {
        assert(ge.objects.len() == game.objects@.len());
    }
    let mut i: usize = 0;
    while i < n
        invariant
            game@.wf(),
            0 <= i <= n,
            n == game@.objects.len(),
            game@.objects.len() == game.objects@.len(),
            n == ge.objects.len(),
            crate::gamemap::in_map(tx as int, ty as int),
            game@.player_id == ge.player_id,
            game@.stairs_id == ge.stairs_id,
            game@.inventory == ge.inventory,
            forall|k: int|
                0 <= k < n ==> #[trigger] game@.objects[k].equipment == ge.objects[k].equipment,
            ge.state is Playing,
            game@.state is Playing || i > game@.player_id,
            fireball_burn(ge, tx as int, ty as int, 0, n as int) == fireball_burn(
                game@,
                tx as int,
                ty as int,
                i as int,
                n as int,
            ),
        decreases n - i,
    {
        let ghost gc = game@;
        proof {
            assert(gc.objects[i as int] == game.objects@[i as int]@);
            assert(gc.entity_ok(i as int));
        }
        let ox = game.objects[i].x;
        let oy = game.objects[i].y;
        let d = crate::geom::dist_sq(ox, oy, tx, ty);
        let has_fighter = game.objects[i].fighter.is_some();
        if d <= (FIREBALL_RADIUS * FIREBALL_RADIUS) as i64 && has_fighter {
            let mut msg = String::from_str("The ");
            msg.append(game.objects[i].name.as_str());
            msg.append(" gets burned for ");
            let dmg_txt = crate::text::i32_text(FIREBALL_DAMAGE);
            msg.append(dmg_txt.as_str());
            msg.append(" hit points.");
            proof {
                assert(msg@ =~= burned_text(gc.objects[i as int].name));
            }
            game.message(msg, colors::orange());
            proof {
                crate::game::lemma_wf_log_only(gc, game@);
                // whoever fights here is alive: a live monster by the
                // invariant, or the player while the game is in play
                match gc.objects[i as int].fighter {
                    Some(tf) => {
                        if i as int != gc.player_id {
                            assert(tf.death is Some && tf.death != Some(
                                crate::entity::DeathCallback::Player,
                            ));
                            assert(tf.hp >= 1);
                        } else {
                            assert(gc.state is Playing);
                            assert(tf.hp >= 1);
                        }
                    },
                    None => {},
                }
            }
            take_damage(i, FIREBALL_DAMAGE, game);
            proof {
                if i as int != gc.player_id {
                    // a non-player death cannot end the game
                    assert(game@.state == gc.state);
                }
            }
        }
        proof {
            assert(fireball_burn(game@, tx as int, ty as int, i + 1, n as int) == fireball_burn(
                gc,
                tx as int,
                ty as int,
                i as int,
                n as int,
            ));
        }
        i = i + 1;
    }
    UseResult::Used
}

/// The effect of an item with no effect: always applies, changing
/// nothing. Pure equipment carries this tag and is intercepted by the
/// equip toggle before dispatch ever reaches it.
pub fn cast_nothing(game: &mut Game) -> (r: UseResult)
    ensures
        final(game)@ == old(game)@,
        r == UseResult::Used,
{
    let _ = game;
    UseResult::Used
}

/// The prompt asking for a confusion target.
pub open spec fn confuse_prompt_text() -> Seq<char> {
    "Left-click an enemy to confuse it, or right-click to cancel."@
}

/// The message reporting a confused monster.
pub open spec fn confused_text(name: Seq<char>) -> Seq<char> {
    "The eyes of the "@ + name + " look vacant, as he starts to stumble around!"@
}

/// The AI variant saved for later restoration: the current non-confused
/// variant, or — when the target is already confused — whatever that
/// confusion had saved, keeping the nesting one level deep.
pub open spec fn saved_ai_of(o: ObjectV) -> Option<MonsterAIType> {
    match o.ai {
        None => None,
        Some(a) => match a.ai_type {
            MonsterAIType::Basic => Some(MonsterAIType::Basic),
            MonsterAIType::Confused { .. } => a.old_ai,
        },
    }
}

/// The successor state of `cast_confuse`: the prompt is always logged;
/// with a target, its AI is replaced by a confusion with the fixed
/// countdown, saving the prior variant; aborted targeting changes
/// nothing else.
pub open spec fn cast_confuse_step(g: GameV, target: Option<usize>) -> GameV {
    let gp = GameV { messages: log_push(g.messages, (confuse_prompt_text(), light_cyan_v())), ..g };
    match target {
        None => gp,
        Some(id) => {
            let o = gp.objects[id as int];
            let na = MonsterAI {
                monster_id: id,
                old_ai: saved_ai_of(o),
                ai_type: MonsterAIType::Confused { num_turns: CONFUSE_NUM_TURNS },
            };
            GameV {
                objects: gp.objects.update(id as int, ObjectV { ai: Some(na), ..o }),
                messages: log_push(gp.messages, (confused_text(o.name), green_v())),
                ..gp
            }
        },
    }
}

/// The target stands within the confusion scroll's range of the player.
pub open spec fn in_confuse_range(g: GameV, id: int) -> bool {
    spec_dist_sq(
        g.player().x as int,
        g.player().y as int,
        g.objects[id].x as int,
        g.objects[id].y as int,
    ) <= CONFUSE_RANGE * CONFUSE_RANGE
}

/// Replaces the target's AI with a confusion carrying the fixed
/// countdown, saving its prior variant for later restoration; cancelled
/// when the targeting was aborted. The pick is restricted to fighters
/// other than the player, within range and visibility.
pub fn cast_confuse(game: &mut Game, fov: &Fov, target: Option<usize>) -> (r: UseResult)
    requires
        old(game)@.wf(),
        fov.wf(),
        target matches Some(id) ==> is_monster_target(old(game)@, fov_view(*fov), id as int)
            && in_confuse_range(old(game)@, id as int),
    ensures
        final(game)@ == cast_confuse_step(old(game)@, target),
        r == (if target is Some {
            UseResult::Used
        } else {
            UseResult::Cancelled
        }),
        final(game)@.objects.len() == old(game)@.objects.len(),
        final(game)@.player_id == old(game)@.player_id,
        final(game)@.stairs_id == old(game)@.stairs_id,
        final(game)@.inventory == old(game)@.inventory,
        forall|i: int|
            0 <= i < old(game)@.objects.len() ==> #[trigger] final(game)@.objects[i].equipment
                == old(game)@.objects[i].equipment,
        final(game)@.wf(),
{
    let ghost g0 = old(game)@;
    game.message(
        String::from_str("Left-click an enemy to confuse it, or right-click to cancel."),
        colors::light_cyan(),
    );
    proof {
        crate::game::lemma_wf_log_only(g0, game@);
    }
    let id = match target {
        Some(id) => id,
        None => {
            return UseResult::Cancelled;
        },
    };
    let ghost gp = game@;
    proof {
        assert(gp.objects[id as int] == game.objects@[id as int]@);
        assert(gp.entity_ok(id as int));
    }
    let saved: Option<MonsterAIType> = match &game.objects[id].ai {
        None => None,
        Some(a) => match a.ai_type {
            MonsterAIType::Basic => Some(MonsterAIType::Basic),
            MonsterAIType::Confused { .. } => a.old_ai,
        },
    };
    let na = MonsterAI {
        monster_id: id,
        old_ai: saved,
        ai_type: MonsterAIType::Confused { num_turns: CONFUSE_NUM_TURNS },
    };
    game.set_ai(id, Some(na));
    let ghost gm = game@;
    proof {
        assert(gm.objects.len() == game.objects@.len());
        assert(gm.objects[id as int] == game.objects@[id as int]@);
        assert(gm.objects[id as int].name == g0.objects[id as int].name);
    }
    let mut msg = String::from_str("The eyes of the ");
    msg.append(game.objects[id].name.as_str());
    msg.append(" look vacant, as he starts to stumble around!");
    proof {
        assert(msg@ =~= confused_text(g0.objects[id as int].name));
    }
    game.message(msg, colors::green());
    proof {
        let gf = game@;
        assert(gf == cast_confuse_step(g0, target));
        lemma_xp_potential_update_same_fighter(gp, id as int, gm.objects[id as int]);
        assert forall|i: int| 0 <= i < gf.objects.len() implies gf.entity_ok(i) by {
            assert(g0.entity_ok(i));
        }
        assert forall|i: int|
            0 <= i < gf.objects.len() && crate::game::is_equipped_ent(
                #[trigger] gf.objects[i],
            ) implies gf.inventory.contains(i) by {
            assert(crate::game::is_equipped_ent(g0.objects[i]));
        }
        assert forall|i: int, j: int|
            #![trigger gf.objects[i].equipment, gf.objects[j].equipment]
            0 <= i < gf.objects.len() && 0 <= j < gf.objects.len() && i != j
                && crate::game::is_equipped_ent(gf.objects[i]) && crate::game::is_equipped_ent(
                gf.objects[j],
            ) implies crate::game::slot_of(gf.objects[i]) != crate::game::slot_of(
            gf.objects[j],
        ) by {
            assert(crate::game::is_equipped_ent(g0.objects[i]) && crate::game::is_equipped_ent(
                g0.objects[j],
            ));
            assert(g0.objects[i].equipment == gf.objects[i].equipment);
            assert(g0.objects[j].equipment == gf.objects[j].equipment);
        }
        assert(game@.wf());
    }
    UseResult::Used
}

/// The successor state of one effect dispatch.
pub open spec fn item_use_step(
    kind: Item,
    g: GameV,
    fv: Seq<Seq<bool>>,
    choice: TargetChoice,
) -> GameV {
    match kind {
        Item::Heal => cast_heal_step(g),
        Item::Lightning => cast_lightning_step(g, fv),
        Item::Fireball => cast_fireball_step(g, tile_of(choice)),
        Item::Confuse => cast_confuse_step(g, monster_of(choice)),
        Item::Nothing => g,
    }
}

/// Whether one effect dispatch applies or is cancelled.
pub open spec fn item_use_result(
    kind: Item,
    g: GameV,
    fv: Seq<Seq<bool>>,
    choice: TargetChoice,
) -> UseResult {
    match kind {
        Item::Heal => cast_heal_result(g),
        Item::Lightning => cast_lightning_result(g, fv),
        Item::Fireball => if tile_of(choice) is Some {
            UseResult::Used
        } else {
            UseResult::Cancelled
        },
        Item::Confuse => if monster_of(choice) is Some {
            UseResult::Used
        } else {
            UseResult::Cancelled
        },
        Item::Nothing => UseResult::Used,
    }
}

impl Item {
    /// Dispatches one effect by this tag.
    pub fn use_item(&self, game: &mut Game, fov: &Fov, choice: TargetChoice) -> (r: UseResult)
        requires
            old(game)@.wf(),
            fov.wf(),
            old(game)@.state is Playing,
            choice matches TargetChoice::TilePick(x, y) ==> crate::gamemap::in_map(
                x as int,
                y as int,
            ),
            choice matches TargetChoice::MonsterPick(m) ==> is_monster_target(
                old(game)@,
                fov_view(*fov),
                m as int,
            ) && in_confuse_range(old(game)@, m as int),
        ensures
            final(game)@ == item_use_step(*self, old(game)@, fov_view(*fov), choice),
            r == item_use_result(*self, old(game)@, fov_view(*fov), choice),
            final(game)@.wf(),
            final(game)@.objects.len() == old(game)@.objects.len(),
            final(game)@.player_id == old(game)@.player_id,
            final(game)@.stairs_id == old(game)@.stairs_id,
            final(game)@.inventory == old(game)@.inventory,
            forall|i: int|
                0 <= i < old(game)@.objects.len() ==> #[trigger] final(game)@.objects[i].equipment
                    == old(game)@.objects[i].equipment,
    {
        match *self {
            Item::Heal => cast_heal(game),
            Item::Lightning => cast_lightning(game, fov),
            Item::Fireball => {
                let target = match choice {
                    TargetChoice::TilePick(x, y) => Some((x, y)),
                    _ => None,
                };
                cast_fireball(game, target)
            },
            Item::Confuse => {
                let target = match choice {
                    TargetChoice::MonsterPick(m) => Some(m),
                    _ => None,
                };
                cast_confuse(game, fov, target)
            },
            Item::Nothing => cast_nothing(game),
        }
    }
}

/// The message refusing an entity with no use.
pub open spec fn cannot_use_text(name: Seq<char>) -> Seq<char> {
    "The "@ + name + " cannot be used."@
}

/// The successor state of `use_item`: equipment toggles instead of
/// being consumed; an entity with no item capability only reports; an
/// effect that applies consumes the inventory entry; a cancelled effect
/// leaves the inventory untouched and reports the cancellation.
pub open spec fn use_item_step(
    g: GameV,
    id: int,
    idx: int,
    fv: Seq<Seq<bool>>,
    choice: TargetChoice,
) -> GameV {
    let o = g.objects[id];
    if o.item is Some && o.equipment is Some {
        if crate::game::is_equipped_ent(o) {
            dequip_step(g, id)
        } else {
            equip_step(g, id)
        }
    } else {
        match o.item {
            Some(kind) => {
                let g1 = item_use_step(kind, g, fv, choice);
                match item_use_result(kind, g, fv, choice) {
                    UseResult::Used => GameV { inventory: g1.inventory.remove(idx), ..g1 },
                    UseResult::Cancelled => GameV {
                        messages: log_push(g1.messages, ("Cancelled"@, white_v())),
                        ..g1
                    },
                }
            },
            None => GameV { messages: log_push(g.messages, (cannot_use_text(o.name), white_v())), ..g },
        }
    }
}

/// Uses the inventory entry at `inventory_index`: toggles equipment,
/// or dispatches the item's effect; on success the entry is consumed,
/// on cancellation only a message is emitted.
#[verifier::rlimit(100)]
pub fn use_item(
    id: usize,
    inventory_index: usize,
    game: &mut Game,
    fov: &Fov,
    choice: TargetChoice,
)
    requires
        old(game)@.wf(),
        fov.wf(),
        inventory_index < old(game)@.inventory.len(),
        old(game)@.inventory[inventory_index as int] == id as int,
        old(game)@.state is Playing,
        choice matches TargetChoice::TilePick(x, y) ==> crate::gamemap::in_map(x as int, y as int),
        choice matches TargetChoice::MonsterPick(m) ==> is_monster_target(
            old(game)@,
            fov_view(*fov),
            m as int,
        ) && in_confuse_range(old(game)@, m as int),
    ensures
        final(game)@ == use_item_step(
            old(game)@,
            id as int,
            inventory_index as int,
            fov_view(*fov),
            choice,
        ),
        final(game)@.wf(),
{
    let ghost g0 = old(game)@;
    proof {
        assert(0 <= g0.inventory[inventory_index as int] < g0.objects.len());
        assert(g0.objects[id as int] == game.objects@[id as int]@);
        assert(g0.entity_ok(id as int));
    }
    let kind: Option<Item> = game.objects[id].item;
    let has_equipment = game.objects[id].equipment.is_some();
    if kind.is_some() && has_equipment {
        proof {
            assert(g0.inventory.contains(id as int)) by {
                assert(g0.inventory[inventory_index as int] == id as int);
            }
        }
        toggle_equip(id, game);
        return ;
    }
    match kind {
        Some(kind) => {
            let res = kind.use_item(game, fov, choice);
            let ghost g1 = game@;
            match res {
                UseResult::Used => {
                    game.inventory.remove(inventory_index);
                    proof {
                        assert(crate::game::inv_view(game.inventory@) =~= g1.inventory.remove(
                            inventory_index as int,
                        ));
                        let gf = game@;
                        assert(gf == use_item_step(
                            g0,
                            id as int,
                            inventory_index as int,
                            fov_view(*fov),
                            choice,
                        ));
                        lemma_wf_after_remove(g0, g1, gf, id as int, inventory_index as int);
                    }
                },
                UseResult::Cancelled => {
                    game.message(String::from_str("Cancelled"), colors::white());
                    proof {
                        crate::game::lemma_wf_log_only(g1, game@);
                    }
                },
            }
        },
        None => {
            let mut msg = String::from_str("The ");
            msg.append(game.objects[id].name.as_str());
            msg.append(" cannot be used.");
            proof {
                assert(msg@ =~= cannot_use_text(g0.objects[id as int].name));
            }
            game.message(msg, colors::white());
            proof {
                crate::game::lemma_wf_log_only(g0, game@);
            }
        },
    }
}

/// Consuming an unequippable inventory entry preserves well-formedness:
/// the entry removed carries no equipment, and every other entry keeps
/// its place (shifted by one past the removal point).
proof fn lemma_wf_after_remove(g0: GameV, g1: GameV, gf: GameV, id: int, idx: int)
    requires
        g0.wf(),
        g1.wf(),
        0 <= idx < g0.inventory.len(),
        g0.inventory[idx] == id,
        0 <= id < g0.objects.len(),
        g0.objects[id].equipment is None,
        g1.objects.len() == g0.objects.len(),
        g1.player_id == g0.player_id,
        g1.stairs_id == g0.stairs_id,
        g1.inventory == g0.inventory,
        forall|i: int|
            0 <= i < g0.objects.len() ==> #[trigger] g1.objects[i].equipment
                == g0.objects[i].equipment,
        gf == (GameV { inventory: g1.inventory.remove(idx), ..g1 }),
    ensures
        gf.wf(),
{
    let inv = g1.inventory;
    let new_inv = inv.remove(idx);
    assert forall|i: int| 0 <= i < gf.objects.len() implies gf.entity_ok(i) by {
        assert(g1.entity_ok(i));
    }
    assert(crate::game::xp_potential(gf) == crate::game::xp_potential(g1));
    assert forall|k1: int, k2: int|
        #![trigger new_inv[k1], new_inv[k2]]
        0 <= k1 < k2 < new_inv.len() implies new_inv[k1] != new_inv[k2] by {
        let m1 = if k1 < idx {
            k1
        } else {
            k1 + 1
        };
        let m2 = if k2 < idx {
            k2
        } else {
            k2 + 1
        };
        assert(new_inv[k1] == inv[m1] && new_inv[k2] == inv[m2]);
    }
    assert forall|i: int|
        0 <= i < gf.objects.len() && crate::game::is_equipped_ent(
            #[trigger] gf.objects[i],
        ) implies gf.inventory.contains(i) by {
        assert(crate::game::is_equipped_ent(g1.objects[i]));
        assert(g1.inventory.contains(i));
        let k = choose|k: int| 0 <= k < inv.len() && inv[k] == i;
        assert(g1.objects[id].equipment == g0.objects[id].equipment);
        assert(!crate::game::is_equipped_ent(g1.objects[id]));
        assert(i != id);
        assert(k != idx);
        if k < idx {
            assert(new_inv[k] == i);
        } else {
            assert(new_inv[k - 1] == i);
        }
    }
    assert(gf.wf());
}

} // verus!
