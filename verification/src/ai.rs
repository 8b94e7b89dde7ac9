//! The monster AI state machine. A basic monster pursues and attacks
//! the visible player; a confused monster stumbles one random step per
//! turn, counting its confusion down, and reverts to the variant saved
//! before confusion when the countdown ends.

use vstd::prelude::*;
use vstd::string::StringExecFns;
use crate::colors;
use crate::colors::red_v;
use crate::combat::{attack, attack_step, move_by, move_by_step, move_towards, step_toward};
use crate::entity::{MonsterAI, MonsterAIType, ObjectV};
use crate::fov::{Fov, fov_view};
use crate::game::{Game, GameV, log_push, xp_potential};
use crate::geom::spec_dist_sq;

verus! {

/// The message emitted when a confusion ends.
pub open spec fn confusion_over_text(name: Seq<char>) -> Seq<char> {
    "The "@ + name + " is no longer confused!"@
}

/// The successor state of a basic AI turn: when visible, step toward
/// the player if at least two cells away, otherwise attack a living
/// player; when not visible, do nothing.
pub open spec fn basic_ai_step(g: GameV, id: int, visible: bool) -> GameV {
    let o = g.objects[id];
    let p = g.player();
    let d = spec_dist_sq(o.x as int, o.y as int, p.x as int, p.y as int);
    if visible {
        if d >= 4 {
            move_by_step(g, id, step_toward(p.x - o.x, d), step_toward(p.y - o.y, d))
        } else if p.fighter matches Some(f) && f.hp > 0 {
            attack_step(g, id, g.player_id)
        } else {
            g
        }
    } else {
        g
    }
}

/// The successor state of the end of a confusion: report, then restore
/// the saved variant — or remove the AI entirely if none was saved.
pub open spec fn confusion_expire_step(g: GameV, id: int) -> GameV {
    let o = g.objects[id];
    let a = o.ai->Some_0;
    let restored: Option<MonsterAI> = match a.old_ai {
        Some(k) => Some(MonsterAI { monster_id: a.monster_id, old_ai: None, ai_type: k }),
        None => None,
    };
    GameV {
        objects: g.objects.update(id, ObjectV { ai: restored, ..o }),
        messages: log_push(g.messages, (confusion_over_text(o.name), red_v())),
        ..g
    }
}

/// The successor state of one AI turn. `visible` is the oracle's answer
/// for the monster's cell; `cdx` and `cdy` are the confusion offsets
/// drawn for this turn (each from the two-value set `{-1, 0}`).
pub open spec fn ai_step(g: GameV, id: int, visible: bool, cdx: int, cdy: int) -> GameV {
    let o = g.objects[id];
    let a = o.ai->Some_0;
    match a.ai_type {
        MonsterAIType::Basic => basic_ai_step(g, id, visible),
        MonsterAIType::Confused { num_turns } => {
            if num_turns > 0 {
                let gm = move_by_step(g, id, cdx, cdy);
                GameV {
                    objects: gm.objects.update(
                        id,
                        ObjectV {
                            ai: Some(
                                MonsterAI {
                                    ai_type: MonsterAIType::Confused {
                                        num_turns: (num_turns - 1) as i32,
                                    },
                                    ..a
                                },
                            ),
                            ..gm.objects[id]
                        },
                    ),
                    ..gm
                }
            } else {
                confusion_expire_step(g, id)
            }
        },
    }
}

/// The AI value after one of its turns, ignoring the world: Basic is
/// stable; a confusion counts down and finally restores the saved
/// variant (or removes the AI when none was saved).
pub open spec fn ai_after_turn(a: MonsterAI) -> Option<MonsterAI> {
    match a.ai_type {
        MonsterAIType::Basic => Some(a),
        MonsterAIType::Confused { num_turns } => {
            if num_turns > 0 {
                Some(
                    MonsterAI {
                        ai_type: MonsterAIType::Confused { num_turns: (num_turns - 1) as i32 },
                        ..a
                    },
                )
            } else {
                match a.old_ai {
                    Some(k) => Some(
                        MonsterAI { monster_id: a.monster_id, old_ai: None, ai_type: k },
                    ),
                    None => None,
                }
            }
        },
    }
}

/// The AI value after `k` of its turns.
pub open spec fn ai_after_turns(a: Option<MonsterAI>, k: nat) -> Option<MonsterAI>
    decreases k,
{
    if k == 0 {
        a
    } else {
        match ai_after_turns(a, (k - 1) as nat) {
            Some(b) => ai_after_turn(b),
            None => None,
        }
    }
}

/// A confusion with countdown `n` stumbles for exactly `n` turns —
/// after `n` turns the countdown has just reached zero — and the next
/// turn restores the variant saved before the confusion, or removes the
/// AI entirely if none was saved.
pub proof fn lemma_confusion_reverts(a: MonsterAI, n: int)
    requires
        a.ai_type == (MonsterAIType::Confused { num_turns: n as i32 }),
        0 <= n <= i32::MAX,
    ensures
        ai_after_turns(Some(a), n as nat) == Some(
            MonsterAI { ai_type: MonsterAIType::Confused { num_turns: 0 }, ..a },
        ),
        ai_after_turns(Some(a), (n + 1) as nat) == (match a.old_ai {
            Some(k) => Some(MonsterAI { monster_id: a.monster_id, old_ai: None, ai_type: k }),
            None => None,
        }),
    decreases n,
{
    if n == 0 {
        assert(ai_after_turns(Some(a), 0) == Some(a));
        assert(ai_after_turns(Some(a), 1) == ai_after_turn(a));
    } else {
        let b = MonsterAI { ai_type: MonsterAIType::Confused { num_turns: (n - 1) as i32 }, ..a };
        lemma_confusion_reverts(b, n - 1);
        lemma_ai_turns_shift_left(a, b, (n - 1) as nat);
        lemma_ai_turns_shift_left(a, b, n as nat);
    }
}

/// Shifting one turn out of the iteration: `k + 1` turns from `a` are
/// `k` turns from `a`'s successor.
proof fn lemma_ai_turns_shift_left(a: MonsterAI, b: MonsterAI, k: nat)
    requires
        ai_after_turn(a) == Some(b),
    ensures
        ai_after_turns(Some(a), (k + 1) as nat) == ai_after_turns(Some(b), k),
    decreases k,
{
    if k == 0 {
        assert(ai_after_turns(Some(a), 0) == Some(a));
        assert(ai_after_turns(Some(b), 0) == Some(b));
        assert(ai_after_turns(Some(a), 1) == ai_after_turn(a));
    } else {
        lemma_ai_turns_shift_left(a, b, (k - 1) as nat);
        assert(ai_after_turns(Some(a), (k + 1) as nat) == match ai_after_turns(Some(a), k) {
            Some(c) => ai_after_turn(c),
            None => None,
        });
        assert(ai_after_turns(Some(b), k) == match ai_after_turns(Some(b), (k - 1) as nat) {
            Some(c) => ai_after_turn(c),
            None => None,
        });
    }
}

/// Runs one AI turn for the entity. The returned state is `ai_step` for
/// the oracle's visibility answer and some pair of confusion offsets —
/// each drawn from `{-1, 0}` — and the entity's stored AI always
/// advances by exactly `ai_after_turn`.
pub fn ai_take_turn(id: usize, game: &mut Game, fov: &Fov)
    requires
        old(game)@.wf(),
        id < old(game)@.objects.len(),
        old(game)@.objects[id as int].ai is Some,
        fov.wf(),
    ensures
        final(game)@.wf(),
        exists|cdx: int, cdy: int|
            -1 <= cdx <= 0 && -1 <= cdy <= 0 && final(game)@ == ai_step(
                old(game)@,
                id as int,
                fov_view(*fov)[old(game)@.objects[id as int].x as int][old(
                    game,
                )@.objects[id as int].y as int],
                cdx,
                cdy,
            ),
        final(game)@.objects[id as int].ai == ai_after_turn(
            old(game)@.objects[id as int].ai->Some_0,
        ),
        forall|j: int|
            0 <= j < old(game)@.objects.len() && j != id as int
                ==> #[trigger] final(game)@.objects[j].ai == old(game)@.objects[j].ai,
        final(game)@.objects.len() == old(game)@.objects.len(),
        final(game)@.player_id == old(game)@.player_id,
        final(game)@.stairs_id == old(game)@.stairs_id,
        final(game)@.inventory == old(game)@.inventory,
        final(game)@.map == old(game)@.map,
        final(game)@.dungeon_level == old(game)@.dungeon_level,
{
    let ghost g0 = old(game)@;
    proof {
        assert(g0.objects[id as int] == game.objects@[id as int]@);
        assert(g0.entity_ok(id as int));
        assert(g0.entity_ok(g0.player_id));
    }
    let a: MonsterAI = match &game.objects[id].ai {
        Some(a) => *a,
        None => {
            proof {
                assert(false);
            }
            MonsterAI { monster_id: 0, old_ai: None, ai_type: MonsterAIType::Basic }
        },
    };
    match a.ai_type {
        MonsterAIType::Basic => {
            monster_basic_ai(id, game, fov);
            proof {
                let gf = final(game)@;
                assert(gf == ai_step(
                    g0,
                    id as int,
                    fov_view(*fov)[g0.objects[id as int].x as int][g0.objects[id as int].y as int],
                    0,
                    0,
                ));
            }
        },
        MonsterAIType::Confused { num_turns } => {
            monster_confused_ai(id, game, fov);
        },
    }
}

/// One turn of a basic monster: if the oracle can see its cell, it
/// steps toward the player when at least two cells away, and otherwise
/// attacks the player if the player is still alive.
pub fn monster_basic_ai(id: usize, game: &mut Game, fov: &Fov)
    requires
        old(game)@.wf(),
        id < old(game)@.objects.len(),
        old(game)@.objects[id as int].ai matches Some(a) && a.ai_type is Basic,
        fov.wf(),
    ensures
        final(game)@.wf(),
        final(game)@ == basic_ai_step(
            old(game)@,
            id as int,
            fov_view(*fov)[old(game)@.objects[id as int].x as int][old(
                game,
            )@.objects[id as int].y as int],
        ),
        final(game)@.objects.len() == old(game)@.objects.len(),
        forall|j: int|
            0 <= j < old(game)@.objects.len() && j != id as int
                ==> #[trigger] final(game)@.objects[j].ai == old(game)@.objects[j].ai,
{
    let ghost g0 = old(game)@;
    proof {
        assert(g0.objects[id as int] == game.objects@[id as int]@);
        assert(g0.entity_ok(id as int));
        assert(g0.entity_ok(g0.player_id));
        assert(g0.objects[g0.player_id] == game.objects@[game.player_id as int]@);
    }
    let mx = game.objects[id].x;
    let my = game.objects[id].y;
    if fov.is_in_fov(mx, my) {
        let px = game.objects[game.player_id].x;
        let py = game.objects[game.player_id].y;
        let d = crate::geom::dist_sq(mx, my, px, py);
        if d >= 4 {
            move_towards(id, px, py, game);
        } else {
            let player_alive = match &game.objects[game.player_id].fighter {
                Some(f) => f.hp > 0,
                None => false,
            };
            if player_alive {
                attack(id, game.player_id, game);
                proof {
                    // the target is the player, whose AI is absent in
                    // any well-formed state
                    assert(final(game)@.objects[g0.player_id].ai is None);
                    assert(g0.objects[g0.player_id].ai is None);
                }
            }
        }
    }
}

/// One turn of a confused monster: while the countdown is positive it
/// moves by a random per-axis offset drawn from `{-1, 0}` and counts
/// down; at zero it reports and reverts to the saved variant.
#[verifier::rlimit(60)]
pub fn monster_confused_ai(id: usize, game: &mut Game, fov: &Fov)
    requires
        old(game)@.wf(),
        id < old(game)@.objects.len(),
        old(game)@.objects[id as int].ai matches Some(a) && a.ai_type is Confused,
        fov.wf(),
    ensures
        final(game)@.wf(),
        exists|cdx: int, cdy: int|
            -1 <= cdx <= 0 && -1 <= cdy <= 0 && final(game)@ == ai_step(
                old(game)@,
                id as int,
                fov_view(*fov)[old(game)@.objects[id as int].x as int][old(
                    game,
                )@.objects[id as int].y as int],
                cdx,
                cdy,
            ),
        final(game)@.objects[id as int].ai == ai_after_turn(
            old(game)@.objects[id as int].ai->Some_0,
        ),
        final(game)@.objects.len() == old(game)@.objects.len(),
        forall|j: int|
            0 <= j < old(game)@.objects.len() && j != id as int
                ==> #[trigger] final(game)@.objects[j].ai == old(game)@.objects[j].ai,
{
    let ghost g0 = old(game)@;
    proof {
        assert(g0.objects[id as int] == game.objects@[id as int]@);
        assert(g0.entity_ok(id as int));
    }
    let a: MonsterAI = match &game.objects[id].ai {
        Some(a) => *a,
        None => {
            proof {
                assert(false);
            }
            MonsterAI { monster_id: 0, old_ai: None, ai_type: MonsterAIType::Basic }
        },
    };
    let num_turns = match a.ai_type {
        MonsterAIType::Confused { num_turns } => num_turns,
        MonsterAIType::Basic => {
            proof {
                assert(false);
            }
            0
        },
    };
    if num_turns > 0 {
        let cdx = crate::rng::rand_range(-1, 1);
        let cdy = crate::rng::rand_range(-1, 1);
        let _ = move_by(id, cdx, cdy, game);
        let ghost gm = game@;
        proof {
            assert(gm.objects[id as int] == game.objects@[id as int]@);
        }
        game.set_ai(
            id,
            Some(MonsterAI { ai_type: MonsterAIType::Confused { num_turns: num_turns - 1 }, ..a }),
        );
        proof {
            let gf = game@;
            assert(gf == ai_step(
                g0,
                id as int,
                fov_view(*fov)[g0.objects[id as int].x as int][g0.objects[id as int].y as int],
                cdx as int,
                cdy as int,
            ));
            crate::game::lemma_xp_potential_update_same_fighter(
                gm,
                id as int,
                gf.objects[id as int],
            );
            assert forall|i: int| 0 <= i < gf.objects.len() implies gf.entity_ok(i) by {
                assert(gm.entity_ok(i));
            }
            assert forall|i: int|
                0 <= i < gf.objects.len() && crate::game::is_equipped_ent(
                    #[trigger] gf.objects[i],
                ) implies gf.inventory.contains(i) by {
                assert(crate::game::is_equipped_ent(gm.objects[i]));
            }
            assert forall|i: int, j: int|
                #![trigger gf.objects[i].equipment, gf.objects[j].equipment]
                0 <= i < gf.objects.len() && 0 <= j < gf.objects.len() && i != j
                    && crate::game::is_equipped_ent(gf.objects[i]) && crate::game::is_equipped_ent(
                    gf.objects[j],
                ) implies crate::game::slot_of(gf.objects[i]) != crate::game::slot_of(
                gf.objects[j],
            ) by {
                assert(crate::game::is_equipped_ent(gm.objects[i])
                    && crate::game::is_equipped_ent(gm.objects[j]));
                assert(gm.objects[i].equipment == gf.objects[i].equipment);
                assert(gm.objects[j].equipment == gf.objects[j].equipment);
            }
            assert(gf.wf());
        }
    } else {
        let mut msg = String::from_str("The ");
        msg.append(game.objects[id].name.as_str());
        msg.append(" is no longer confused!");
        proof {
            assert(msg@ =~= confusion_over_text(g0.objects[id as int].name));
        }
        game.message(msg, colors::red());
        let ghost gm = game@;
        let restored: Option<MonsterAI> = match a.old_ai {
            Some(k) => Some(MonsterAI { monster_id: a.monster_id, old_ai: None, ai_type: k }),
            None => None,
        };
        game.set_ai(id, restored);
        proof {
            let gf = game@;
            assert(gf == confusion_expire_step(g0, id as int));
            assert(gf == ai_step(
                g0,
                id as int,
                fov_view(*fov)[g0.objects[id as int].x as int][g0.objects[id as int].y as int],
                0,
                0,
            ));
            crate::game::lemma_xp_potential_update_same_fighter(
                gm,
                id as int,
                gf.objects[id as int],
            );
            assert forall|i: int| 0 <= i < gf.objects.len() implies gf.entity_ok(i) by {
                assert(g0.entity_ok(i));
                assert(gm.objects[i] == g0.objects[i]);
            }
            assert forall|i: int|
                0 <= i < gf.objects.len() && crate::game::is_equipped_ent(
                    #[trigger] gf.objects[i],
                ) implies gf.inventory.contains(i) by {
                assert(crate::game::is_equipped_ent(gm.objects[i]));
            }
            assert forall|i: int, j: int|
                #![trigger gf.objects[i].equipment, gf.objects[j].equipment]
                0 <= i < gf.objects.len() && 0 <= j < gf.objects.len() && i != j
                    && crate::game::is_equipped_ent(gf.objects[i]) && crate::game::is_equipped_ent(
                    gf.objects[j],
                ) implies crate::game::slot_of(gf.objects[i]) != crate::game::slot_of(
                gf.objects[j],
            ) by {
                assert(crate::game::is_equipped_ent(gm.objects[i])
                    && crate::game::is_equipped_ent(gm.objects[j]));
                assert(gm.objects[i].equipment == gf.objects[i].equipment);
                assert(gm.objects[j].equipment == gf.objects[j].equipment);
            }
            assert(gf.wf());
        }
    }
}

/// The stored AI after one pass visit: an entity holding an AI advances
/// by one turn; one holding none is skipped and stays without.
pub open spec fn ai_advance(a: Option<MonsterAI>) -> Option<MonsterAI> {
    match a {
        Some(x) => ai_after_turn(x),
        None => None,
    }
}

/// The fold of one AI pass: visits ascend over the arena ids; a visit
/// applies `ai_step` with that entity's drawn offsets — reading the
/// oracle at the entity's position in the intermediate state — and an
/// entity holding no AI at its visit (stripped earlier in the pass, or
/// never a monster) is skipped.
pub open spec fn ai_pass_fold(
    g: GameV,
    fv: Seq<Seq<bool>>,
    offs: Seq<(int, int)>,
    i: int,
) -> GameV
    decreases offs.len() - i,
{
    if i < 0 || i >= offs.len() {
        g
    } else {
        let g1 = if g.objects[i].ai is Some {
            ai_step(
                g,
                i,
                fv[g.objects[i].x as int][g.objects[i].y as int],
                offs[i].0,
                offs[i].1,
            )
        } else {
            g
        };
        ai_pass_fold(g1, fv, offs, i + 1)
    }
}

/// Extending the offset sequence by one extends the fold by one visit.
proof fn lemma_ai_pass_fold_snoc(
    g: GameV,
    fv: Seq<Seq<bool>>,
    offs: Seq<(int, int)>,
    w: (int, int),
    i: int,
)
    requires
        0 <= i <= offs.len(),
    ensures
        ai_pass_fold(g, fv, offs.push(w), i) == ({
            let gm = ai_pass_fold(g, fv, offs, i);
            if gm.objects[offs.len() as int].ai is Some {
                ai_step(
                    gm,
                    offs.len() as int,
                    fv[gm.objects[offs.len() as int].x as int][gm.objects[offs.len() as int].y as int],
                    w.0,
                    w.1,
                )
            } else {
                gm
            }
        }),
    decreases offs.len() - i,
{
    if i < offs.len() {
        assert(offs.push(w)[i] == offs[i]);
        let g1 = if g.objects[i].ai is Some {
            ai_step(g, i, fv[g.objects[i].x as int][g.objects[i].y as int], offs[i].0, offs[i].1)
        } else {
            g
        };
        lemma_ai_pass_fold_snoc(g1, fv, offs, w, i + 1);
        assert(ai_pass_fold(g, fv, offs.push(w), i) == ai_pass_fold(g1, fv, offs.push(w), i + 1));
        assert(ai_pass_fold(g, fv, offs, i) == ai_pass_fold(g1, fv, offs, i + 1));
    } else {
        assert(offs.push(w)[i] == w);
        assert(ai_pass_fold(g, fv, offs, i) == g);
        let g1 = if g.objects[i].ai is Some {
            ai_step(g, i, fv[g.objects[i].x as int][g.objects[i].y as int], w.0, w.1)
        } else {
            g
        };
        assert(ai_pass_fold(g1, fv, offs.push(w), i + 1) == g1);
        assert(ai_pass_fold(g, fv, offs.push(w), i) == g1);
    }
}

/// Runs one full AI pass: the final state is the ascending-id fold of
/// `ai_step` over the whole arena, for some per-entity offset pair
/// drawn from `{-1, 0}` each. A visit applies that entity's full turn
/// (pursuit, attack, or stumble); an entity holding no AI at its visit
/// — stripped earlier in the same pass by the death transform, which
/// removes Fighter and AI together, or never a monster — is skipped,
/// and every stored AI advances by exactly one turn.
pub fn ai_pass(game: &mut Game, fov: &Fov)
    requires
        old(game)@.wf(),
        fov.wf(),
    ensures
        final(game)@.wf(),
        final(game)@.objects.len() == old(game)@.objects.len(),
        exists|offs: Seq<(int, int)>|
            offs.len() == old(game)@.objects.len() && (forall|k: int|
                0 <= k < offs.len() ==> -1 <= (#[trigger] offs[k]).0 <= 0 && -1 <= offs[k].1
                    <= 0) && final(game)@ == ai_pass_fold(old(game)@, fov_view(*fov), offs, 0),
        forall|i: int|
            0 <= i < old(game)@.objects.len() ==> #[trigger] final(game)@.objects[i].ai
                == ai_advance(old(game)@.objects[i].ai),
        final(game)@.player_id == old(game)@.player_id,
        final(game)@.stairs_id == old(game)@.stairs_id,
        final(game)@.inventory == old(game)@.inventory,
        final(game)@.map == old(game)@.map,
        final(game)@.dungeon_level == old(game)@.dungeon_level,
{
    let ghost g0 = old(game)@;
    let ghost fv = fov_view(*fov);
    let ghost mut offs: Seq<(int, int)> = Seq::empty();
    let n = game.objects.len();
    proof {
        assert(g0.objects.len() == game.objects@.len());
    }
    let mut id: usize = 0;
    while id < n
        invariant
            fov.wf(),
            fv == fov_view(*fov),
            game@.wf(),
            0 <= id <= n,
            n == game@.objects.len(),
            game@.objects.len() == game.objects@.len(),
            game@.objects.len() == g0.objects.len(),
            offs.len() == id,
            forall|k: int|
                0 <= k < offs.len() ==> -1 <= (#[trigger] offs[k]).0 <= 0 && -1 <= offs[k].1 <= 0,
            game@ == ai_pass_fold(g0, fv, offs, 0),
            forall|i: int|
                0 <= i < id ==> #[trigger] game@.objects[i].ai == ai_advance(g0.objects[i].ai),
            forall|i: int|
                id <= i < n ==> #[trigger] game@.objects[i].ai == g0.objects[i].ai,
            game@.player_id == g0.player_id,
            game@.stairs_id == g0.stairs_id,
            game@.inventory == g0.inventory,
            game@.map == g0.map,
            game@.dungeon_level == g0.dungeon_level,
        decreases n - id,
    {
        let ghost gpre = game@;
        proof {
            assert(game@.objects[id as int] == game.objects@[id as int]@);
        }
        let has_ai = game.objects[id].ai.is_some();
        if has_ai {
            ai_take_turn(id, game, fov);
            proof {
                let (cdx, cdy) = choose|cdx: int, cdy: int|
                    -1 <= cdx <= 0 && -1 <= cdy <= 0 && game@ == ai_step(
                        gpre,
                        id as int,
                        fv[gpre.objects[id as int].x as int][gpre.objects[id as int].y as int],
                        cdx,
                        cdy,
                    );
                lemma_ai_pass_fold_snoc(g0, fv, offs, (cdx, cdy), 0);
                offs = offs.push((cdx, cdy));
            }
        } else {
            proof {
                lemma_ai_pass_fold_snoc(g0, fv, offs, (0, 0), 0);
                offs = offs.push((0, 0));
            }
        }
        id = id + 1;
    }
}

} // verus!
