//! Inventory management: picking up, dropping, equipping and
//! dequipping items. Slot exclusivity — at most one equipped entity per
//! slot — is part of the well-formedness invariant and is re-established
//! by every operation here.

use vstd::prelude::*;
use vstd::string::StringExecFns;
use crate::colors;
use crate::colors::{red_v, green_v, yellow_v, light_green_v, light_yellow_v};
use crate::consts::INVENTORY_CAPACITY;
use crate::entity::{ObjectV, Slot};
use crate::game::{Game, GameV, is_equipped_ent, slot_of, set_equipped, slot_occupant, log_push,
    get_equipped_in_slot, lemma_occupant_unique, lemma_no_occupant,
    lemma_xp_potential_update_same_fighter, xp_potential, objs_view, inv_view};
use crate::text::{slot_text, slot_str};

verus! {

/// The message emitted when an item is dequipped.
pub open spec fn dequip_text(name: Seq<char>, slot: Slot) -> Seq<char> {
    "Dequipped "@ + name + " from "@ + slot_text(slot) + "."@
}

/// The message emitted when an item is equipped.
pub open spec fn equip_text(name: Seq<char>, slot: Slot) -> Seq<char> {
    "Equipped "@ + name + " on "@ + slot_text(slot) + "."@
}

/// The message emitted when a pick-up is refused.
pub open spec fn inventory_full_text(name: Seq<char>) -> Seq<char> {
    "Your inventory is full, cannot pick up "@ + name + "."@
}

/// The message emitted on a successful pick-up.
pub open spec fn picked_up_text(name: Seq<char>) -> Seq<char> {
    "You picked up a "@ + name + "!"@
}

/// The message emitted when an item is dropped.
pub open spec fn dropped_text(name: Seq<char>) -> Seq<char> {
    "You dropped a "@ + name + "."@
}

/// The successor state of `dequip`: if the entity is equipped, unmark
/// it and report; otherwise nothing changes, silently.
pub open spec fn dequip_step(g: GameV, id: int) -> GameV {
    let o = g.objects[id];
    if is_equipped_ent(o) {
        GameV {
            objects: g.objects.update(id, set_equipped(o, false)),
            messages: log_push(g.messages, (dequip_text(o.name, slot_of(o)), light_yellow_v())),
            ..g
        }
    } else {
        g
    }
}

/// The successor state of `equip`: a slot's previous occupant is
/// dequipped first, as an atomic side effect; the entity is then marked
/// equipped and the action reported. Without equipment nothing changes.
pub open spec fn equip_step(g: GameV, id: int) -> GameV {
    let o = g.objects[id];
    match o.equipment {
        Some(e) => {
            let mid = match slot_occupant(g, e.slot) {
                Some(prev) => dequip_step(g, prev),
                None => g,
            };
            GameV {
                objects: mid.objects.update(id, set_equipped(mid.objects[id], true)),
                messages: log_push(mid.messages, (equip_text(o.name, e.slot), light_green_v())),
                ..mid
            }
        },
        None => g,
    }
}

/// Unmarks an equipped entity and reports; a no-op (and silent) when it
/// is not equipped or carries no equipment.
pub fn dequip(id: usize, game: &mut Game)
    requires
        old(game)@.wf(),
        id < old(game)@.objects.len(),
    ensures
        final(game)@ == dequip_step(old(game)@, id as int),
        final(game)@.wf(),
{
    let ghost g0 = old(game)@;
    proof {
        assert(g0.objects[id as int] == game.objects@[id as int]@);
    }
    let is_eq = match &game.objects[id].equipment {
        Some(e) => e.is_equipped,
        None => false,
    };
    if !is_eq {
        return ;
    }
    let slot = match &game.objects[id].equipment {
        Some(e) => e.slot,
        None => Slot::RightHand,
    };
    let mut msg = String::from_str("Dequipped ");
    msg.append(game.objects[id].name.as_str());
    msg.append(" from ");
    msg.append(slot_str(slot));
    msg.append(".");
    proof {
        assert(msg@ =~= dequip_text(g0.objects[id as int].name, slot));
    }
    game.set_equipment_flag(id, false);
    game.message(msg, colors::light_yellow());
    proof {
        let g1 = final(game)@;
        assert(g1 == dequip_step(g0, id as int));
        lemma_xp_potential_update_same_fighter(
            g0,
            id as int,
            set_equipped(g0.objects[id as int], false),
        );
        assert forall|i: int| 0 <= i < g1.objects.len() implies g1.entity_ok(i) by {
            assert(g0.entity_ok(i));
        }
        assert forall|i: int|
            0 <= i < g1.objects.len() && is_equipped_ent(#[trigger] g1.objects[i]) implies
            g1.inventory.contains(i) by {
            assert(is_equipped_ent(g0.objects[i]));
        }
        assert(g1.wf());
    }
}

/// Marks the entity's equipment equipped, first dequipping whatever
/// occupies its slot, and reports; a no-op without equipment.
#[verifier::rlimit(100)]
pub fn equip(id: usize, game: &mut Game)
    requires
        old(game)@.wf(),
        id < old(game)@.objects.len(),
        old(game)@.objects[id as int].equipment is Some ==> old(game)@.inventory.contains(
            id as int,
        ),
    ensures
        final(game)@ == equip_step(old(game)@, id as int),
        final(game)@.wf(),
{
    let ghost g0 = old(game)@;
    proof {
        assert(g0.objects[id as int] == game.objects@[id as int]@);
    }
    let slot = match &game.objects[id].equipment {
        Some(e) => e.slot,
        None => {
            return ;
        },
    };
    let ghost e0 = g0.objects[id as int].equipment->Some_0;
    let prev = get_equipped_in_slot(slot, &game.inventory, &game.objects);
    proof {
        match prev {
            Some(prev_id) => {
                lemma_occupant_unique(g0, slot, prev_id as int);
            },
            None => {
                lemma_no_occupant(g0, slot);
            },
        }
    }
    let mut msg = String::from_str("Equipped ");
    msg.append(game.objects[id].name.as_str());
    msg.append(" on ");
    msg.append(slot_str(slot));
    msg.append(".");
    proof {
        assert(msg@ =~= equip_text(g0.objects[id as int].name, slot));
    }
    if let Some(prev_id) = prev {
        dequip(prev_id, game);
    }
    let ghost gmid = game@;
    proof {
        assert(gmid.objects[id as int].equipment is Some);
        assert(gmid.objects[id as int].equipment->Some_0.slot == e0.slot);
    }
    game.set_equipment_flag(id, true);
    game.message(msg, colors::light_green());
    proof {
        let g1 = final(game)@;
        assert(g1 == equip_step(g0, id as int));
        lemma_xp_potential_update_same_fighter(
            gmid,
            id as int,
            set_equipped(gmid.objects[id as int], true),
        );
        assert forall|i: int| 0 <= i < g1.objects.len() implies g1.entity_ok(i) by {
            assert(gmid.entity_ok(i));
        }
        assert forall|i: int|
            0 <= i < g1.objects.len() && is_equipped_ent(#[trigger] g1.objects[i]) implies
            g1.inventory.contains(i) by {
            if i != id as int {
                assert(is_equipped_ent(gmid.objects[i]));
            }
        }
        assert forall|i: int, j: int|
            #![trigger g1.objects[i].equipment, g1.objects[j].equipment]
            0 <= i < g1.objects.len() && 0 <= j < g1.objects.len() && i != j && is_equipped_ent(
                g1.objects[i],
            ) && is_equipped_ent(g1.objects[j]) implies slot_of(g1.objects[i]) != slot_of(
            g1.objects[j],
        ) by {
            if i != id as int && j != id as int {
                assert(is_equipped_ent(gmid.objects[i]) && is_equipped_ent(gmid.objects[j]));
                assert(is_equipped_ent(g0.objects[i]) && is_equipped_ent(g0.objects[j]));
            } else {
                let other = if i == id as int {
                    j
                } else {
                    i
                };
                if is_equipped_ent(g1.objects[other]) && slot_of(g1.objects[other]) == slot {
                    // the other entity was already equipped in this slot
                    // before the call, so it is the unique occupant and
                    // was dequipped first
                    assert(is_equipped_ent(gmid.objects[other]));
                    assert(is_equipped_ent(g0.objects[other]));
                    lemma_occupant_unique(g0, slot, other);
                    assert(false);
                }
            }
        }
        assert(g1.wf());
    }
}

/// The successor state of `pick_item_up`: refused with a message when
/// the inventory is full; otherwise the item leaves the ground, joins
/// the inventory, and is auto-equipped when its slot is free.
pub open spec fn pick_step(g: GameV, id: int) -> GameV {
    if g.inventory.len() >= INVENTORY_CAPACITY {
        GameV {
            messages: log_push(g.messages, (inventory_full_text(g.objects[id].name), red_v())),
            ..g
        }
    } else {
        let g1 = GameV {
            objects: g.objects.update(id, ObjectV { on_ground: false, ..g.objects[id] }),
            messages: log_push(g.messages, (picked_up_text(g.objects[id].name), green_v())),
            inventory: g.inventory.push(id),
            ..g
        };
        match g.objects[id].equipment {
            Some(e) => if slot_occupant(g, e.slot) is None {
                equip_step(g1, id)
            } else {
                g1
            },
            None => g1,
        }
    }
}

/// Adds an entity to the inventory, or refuses with a message (and no
/// other change) when the inventory already holds its 26 entries. On
/// success the entity leaves the ground and is automatically equipped
/// if its equipment slot is currently unused.
pub fn pick_item_up(id: usize, game: &mut Game)
    requires
        old(game)@.wf(),
        id < old(game)@.objects.len(),
        !old(game)@.inventory.contains(id as int),
        old(game)@.objects[id as int].fighter is None,
        old(game)@.objects[id as int].ai is None,
    ensures
        final(game)@ == pick_step(old(game)@, id as int),
        final(game)@.wf(),
{
    let ghost g0 = old(game)@;
    proof {
        assert(g0.objects[id as int] == game.objects@[id as int]@);
    }
    if game.inventory.len() >= INVENTORY_CAPACITY {
        let mut msg = String::from_str("Your inventory is full, cannot pick up ");
        msg.append(game.objects[id].name.as_str());
        msg.append(".");
        proof {
            assert(msg@ =~= inventory_full_text(g0.objects[id as int].name));
        }
        game.message(msg, colors::red());
        proof {
            let g1 = game@;
            assert(g1.objects == g0.objects);
            assert(g1.inventory == g0.inventory);
            assert forall|i: int| 0 <= i < g1.objects.len() implies g1.entity_ok(i) by {
                assert(g0.entity_ok(i));
            }
            assert(g1.wf());
        }
        return ;
    }
    game.set_on_ground(id, false);
    proof {
        assert(game@.objects.len() == game.objects@.len());
        assert(game@.objects[id as int] == game.objects@[id as int]@);
    }
    let mut msg = String::from_str("You picked up a ");
    msg.append(game.objects[id].name.as_str());
    msg.append("!");
    proof {
        assert(msg@ =~= picked_up_text(g0.objects[id as int].name));
    }
    game.message(msg, colors::green());
    game.inventory.push(id);
    let ghost g1 = game@;
    proof {
        assert(inv_view(game.inventory@) =~= g0.inventory.push(id as int));
        assert(g1 == pick_step_mid(g0, id as int));
        lemma_xp_potential_update_same_fighter(
            g0,
            id as int,
            ObjectV { on_ground: false, ..g0.objects[id as int] },
        );
        assert forall|i: int| 0 <= i < g1.objects.len() implies g1.entity_ok(i) by {
            assert(g0.entity_ok(i));
        }
        assert forall|i: int|
            0 <= i < g1.objects.len() && is_equipped_ent(#[trigger] g1.objects[i]) implies
            g1.inventory.contains(i) by {
            assert(is_equipped_ent(g0.objects[i]));
            assert(g0.inventory.contains(i));
            let k = choose|k: int| 0 <= k < g0.inventory.len() && g0.inventory[k] == i;
            assert(g1.inventory[k] == i);
        }
        assert forall|i: int, j: int|
            #![trigger g1.objects[i].equipment, g1.objects[j].equipment]
            0 <= i < g1.objects.len() && 0 <= j < g1.objects.len() && i != j && is_equipped_ent(
                g1.objects[i],
            ) && is_equipped_ent(g1.objects[j]) implies slot_of(g1.objects[i]) != slot_of(
            g1.objects[j],
        ) by {
            assert(is_equipped_ent(g0.objects[i]) && is_equipped_ent(g0.objects[j]));
        }
        assert(g1.wf());
    }
    let slot = match &game.objects[id].equipment {
        Some(e) => Some(e.slot),
        None => None,
    };
    proof {
        assert(g1.objects[id as int] == game.objects@[id as int]@);
    }
    if let Some(slot) = slot {
        let prev = get_equipped_in_slot(slot, &game.inventory, &game.objects);
        proof {
            assert forall|i: int| 0 <= i < g1.objects.len() implies (is_equipped_ent(
                #[trigger] g1.objects[i],
            ) == is_equipped_ent(g0.objects[i]) && (g1.objects[i].equipment
                == g0.objects[i].equipment)) by {}
        }
        if prev.is_none() {
            proof {
                lemma_no_occupant(g1, slot);
                if slot_occupant(g0, slot) is Some {
                    let i = choose|i: int|
                        0 <= i < g0.objects.len() && is_equipped_ent(#[trigger] g0.objects[i])
                            && slot_of(g0.objects[i]) == slot;
                    assert(is_equipped_ent(g1.objects[i]) && slot_of(g1.objects[i]) == slot);
                }
                assert(slot_occupant(g0, slot) is None);
                assert(g1.inventory.contains(id as int)) by {
                    assert(g1.inventory[g1.inventory.len() - 1] == id as int);
                }
            }
            equip(id, game);
        } else {
            proof {
                let prev_id = prev->Some_0;
                lemma_occupant_unique(g1, slot, prev_id as int);
                assert(is_equipped_ent(g0.objects[prev_id as int]));
                lemma_occupant_unique(g0, slot, prev_id as int);
                assert(slot_occupant(g0, slot) is Some);
            }
        }
    }
}

/// The intermediate state of a successful pick-up, before auto-equip.
pub open spec fn pick_step_mid(g: GameV, id: int) -> GameV {
    GameV {
        objects: g.objects.update(id, ObjectV { on_ground: false, ..g.objects[id] }),
        messages: log_push(g.messages, (picked_up_text(g.objects[id].name), green_v())),
        inventory: g.inventory.push(id),
        ..g
    }
}

/// The successor state of `drop_item`: the entity is dequipped if
/// equipped, leaves the inventory (which is not order-preserving: the
/// last entry takes its place), lands at the player's feet, and the
/// action is reported.
pub open spec fn drop_step(g: GameV, id: int, idx: int) -> GameV {
    let gd = if g.objects[id].equipment is Some {
        dequip_step(g, id)
    } else {
        g
    };
    GameV {
        objects: gd.objects.update(
            id,
            ObjectV { x: g.player().x, y: g.player().y, on_ground: true, ..gd.objects[id] },
        ),
        inventory: gd.inventory.update(idx, gd.inventory.last()).drop_last(),
        messages: log_push(gd.messages, (dropped_text(gd.objects[id].name), yellow_v())),
        ..gd
    }
}

/// Removes the entry at `inventory_index` from the inventory (order
/// need not be preserved), dequips it if it was equipped, and places it
/// on the ground at the player's position.
#[verifier::rlimit(60)]
pub fn drop_item(id: usize, inventory_index: usize, game: &mut Game)
    requires
        old(game)@.wf(),
        inventory_index < old(game)@.inventory.len(),
        old(game)@.inventory[inventory_index as int] == id as int,
    ensures
        final(game)@ == drop_step(old(game)@, id as int, inventory_index as int),
        final(game)@.wf(),
{
    let ghost g0 = old(game)@;
    proof {
        assert(0 <= g0.inventory[inventory_index as int] < g0.objects.len());
        assert(g0.objects[id as int] == game.objects@[id as int]@);
    }
    let has_equipment = game.objects[id].equipment.is_some();
    if has_equipment {
        dequip(id, game);
    }
    let ghost gd = game@;
    game.inventory.swap_remove(inventory_index);
    proof {
        assert(inv_view(game.inventory@) =~= gd.inventory.update(
            inventory_index as int,
            gd.inventory.last(),
        ).drop_last());
    }
    proof {
        assert(game@.objects.len() == game.objects@.len());
    }
    let px = game.objects[game.player_id].x;
    let py = game.objects[game.player_id].y;
    game.set_object_pos(id, px, py);
    game.set_on_ground(id, true);
    proof {
        assert(game@.objects.len() == game.objects@.len());
        assert(game@.objects[id as int] == game.objects@[id as int]@);
    }
    let mut msg = String::from_str("You dropped a ");
    msg.append(game.objects[id].name.as_str());
    msg.append(".");
    proof {
        assert(game@.objects[id as int].name == gd.objects[id as int].name);
        assert(msg@ =~= dropped_text(gd.objects[id as int].name));
    }
    game.message(msg, colors::yellow());
    proof {
        let g1 = final(game)@;
        let o_target = ObjectV {
            x: g0.player().x,
            y: g0.player().y,
            on_ground: true,
            ..gd.objects[id as int]
        };
        assert(g1.objects =~= gd.objects.update(id as int, o_target));
        assert(g1 == drop_step(g0, id as int, inventory_index as int));
        lemma_xp_potential_update_same_fighter(gd, id as int, o_target) ;
        let new_inv = gd.inventory.update(inventory_index as int, gd.inventory.last()).drop_last();
        assert forall|i: int| 0 <= i < g1.objects.len() implies g1.entity_ok(i) by {
            assert(gd.entity_ok(i));
            if i == id as int {
                assert(g0.entity_ok(g0.player_id));
            }
        }
        assert forall|k1: int, k2: int|
            #![trigger new_inv[k1], new_inv[k2]]
            0 <= k1 < k2 < new_inv.len() implies new_inv[k1] != new_inv[k2] by {
            let last = gd.inventory.len() - 1;
            assert(gd.inventory[k1] == gd.inventory[k1]);
            assert(gd.inventory[k2] == gd.inventory[k2]);
        }
        assert forall|i: int|
            0 <= i < g1.objects.len() && is_equipped_ent(#[trigger] g1.objects[i]) implies
            g1.inventory.contains(i) by {
            assert(is_equipped_ent(gd.objects[i]));
            assert(i != id as int);
            assert(gd.inventory.contains(i));
            let k = choose|k: int| 0 <= k < gd.inventory.len() && gd.inventory[k] == i;
            assert(gd.inventory[inventory_index as int] == id as int);
            if k == gd.inventory.len() - 1 {
                assert(new_inv[inventory_index as int] == i);
            } else {
                assert(new_inv[k] == i);
            }
        }
        assert forall|i: int, j: int|
            #![trigger g1.objects[i].equipment, g1.objects[j].equipment]
            0 <= i < g1.objects.len() && 0 <= j < g1.objects.len() && i != j && is_equipped_ent(
                g1.objects[i],
            ) && is_equipped_ent(g1.objects[j]) implies slot_of(g1.objects[i]) != slot_of(
            g1.objects[j],
        ) by {
            assert(is_equipped_ent(gd.objects[i]) && is_equipped_ent(gd.objects[j]));
        }
        assert(g1.wf());
    }
}

/// Equips the entity if it is not equipped, dequips it otherwise.
pub fn toggle_equip(id: usize, game: &mut Game)
    requires
        old(game)@.wf(),
        id < old(game)@.objects.len(),
        old(game)@.objects[id as int].equipment is Some ==> old(game)@.inventory.contains(
            id as int,
        ),
    ensures
        final(game)@ == (if is_equipped_ent(old(game)@.objects[id as int]) {
            dequip_step(old(game)@, id as int)
        } else {
            equip_step(old(game)@, id as int)
        }),
        final(game)@.wf(),
{
    proof {
        assert(old(game)@.objects[id as int] == game.objects@[id as int]@);
    }
    let is_eq = match &game.objects[id].equipment {
        Some(e) => e.is_equipped,
        None => false,
    };
    if is_eq {
        dequip(id, game);
    } else {
        equip(id, game);
    }
}

/// A pick-up into a full inventory is refused outright: the arena and
/// the inventory are untouched, and only the refusal is logged.
pub proof fn lemma_full_inventory_pick_refused(g: GameV, id: int)
    requires
        g.wf(),
        0 <= id < g.objects.len(),
        g.inventory.len() >= INVENTORY_CAPACITY,
    ensures
        pick_step(g, id).inventory == g.inventory,
        pick_step(g, id).objects == g.objects,
        pick_step(g, id).messages == log_push(
            g.messages,
            (inventory_full_text(g.objects[id].name), red_v()),
        ),
{
}

/// In any well-formed state, two distinct equipped entities never share
/// a slot.
pub proof fn lemma_slot_exclusive(g: GameV, i: int, j: int)
    requires
        g.wf(),
        0 <= i < g.objects.len(),
        0 <= j < g.objects.len(),
        i != j,
        is_equipped_ent(g.objects[i]),
        is_equipped_ent(g.objects[j]),
    ensures
        slot_of(g.objects[i]) != slot_of(g.objects[j]),
{
}

} // verus!
