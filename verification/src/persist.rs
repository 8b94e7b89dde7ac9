//! The persistence codec: one snapshot of the whole aggregate as a
//! character sequence. `spec_encode` fixes the format; `encode_game`
//! produces exactly it, and `decode_game` accepts a sequence only if it
//! parses to a well-formed game whose encoding is exactly the input.
//! Reading and writing the save file is the caller's concern.

use vstd::prelude::*;
use crate::entity::{Color, DeathCallback, Equipment, Fighter, Item, MonsterAI, MonsterAIType,
    Object, ObjectV, Slot};
use crate::game::{Game, GameV, GameState, is_well_formed, objs_view, inv_view, msgs_view};
use crate::gamemap::{Grid, Tile, grid_view};
use crate::text::digit_char;

verus! {

/// A fixed-width decimal block: exactly `w` digit characters, most
/// significant first, zero-padded.
pub open spec fn enc_nat_w(v: nat, w: nat) -> Seq<char>
    decreases w,
{
    if w == 0 {
        Seq::empty()
    } else {
        enc_nat_w(v / 10, (w - 1) as nat).push(digit_char(v % 10))
    }
}

/// One decimal digit as a character.
fn digit_to_char(d: u64) -> (c: char)
    requires
        d < 10,
    ensures
        c == digit_char(d as nat),
{
    let c = match d {
        0 => '0',
        1 => '1',
        2 => '2',
        3 => '3',
        4 => '4',
        5 => '5',
        6 => '6',
        7 => '7',
        8 => '8',
        _ => '9',
    };
    proof {
        assert(c == digit_char(d as nat));
    }
    c
}

/// Appends the fixed-width decimal block of `v`.
fn push_nat_w(out: &mut Vec<char>, v: u64, w: usize)
    ensures
        final(out)@ == old(out)@ + enc_nat_w(v as nat, w as nat),
    decreases w,
{
    if w == 0 {
        proof {
            assert(out@ =~= old(out)@ + enc_nat_w(v as nat, 0));
        }
    } else {
        push_nat_w(out, v / 10, w - 1);
        let c = digit_to_char(v % 10);
        out.push(c);
        proof {
            assert(out@ =~= old(out)@ + enc_nat_w(v as nat, w as nat));
        }
    }
}


/// A 20-digit block, wide enough for any `u64`.
pub open spec fn enc_u64(v: nat) -> Seq<char> {
    enc_nat_w(v, 20)
}

/// A sign character and a 10-digit block, wide enough for any `i32`.
pub open spec fn enc_i32v(v: i32) -> Seq<char> {
    if v < 0 {
        seq!['-'] + enc_nat_w((-v) as nat, 10)
    } else {
        seq!['+'] + enc_nat_w(v as nat, 10)
    }
}

/// One tag character per truth value.
pub open spec fn enc_bool(b: bool) -> Seq<char> {
    if b {
        seq!['t']
    } else {
        seq!['f']
    }
}

/// A character as the 7-digit block of its code point.
pub open spec fn enc_char(c: char) -> Seq<char> {
    enc_nat_w((c as u32) as nat, 7)
}

/// A length block followed by the raw characters; no escaping is
/// needed, the length delimits the text.
pub open spec fn enc_str(s: Seq<char>) -> Seq<char> {
    enc_u64(s.len()) + s
}

/// Three 3-digit channel blocks.
pub open spec fn enc_color(c: Color) -> Seq<char> {
    enc_nat_w(c.r as nat, 3) + enc_nat_w(c.g as nat, 3) + enc_nat_w(c.b as nat, 3)
}

/// One tag character per death outcome.
pub open spec fn enc_death(d: Option<DeathCallback>) -> Seq<char> {
    match d {
        None => seq!['n'],
        Some(DeathCallback::Monster) => seq!['m'],
        Some(DeathCallback::Player) => seq!['p'],
    }
}

/// A presence tag, then the fighter's five stats and death outcome.
pub open spec fn enc_fighter(f: Option<Fighter>) -> Seq<char> {
    match f {
        None => seq!['n'],
        Some(f) => seq!['s'] + enc_i32v(f.base_max_hp) + enc_i32v(f.hp) + enc_i32v(f.base_defense)
            + enc_i32v(f.base_power) + enc_i32v(f.xp) + enc_death(f.death),
    }
}

/// A tag character, and the countdown for a confusion.
pub open spec fn enc_ai_kind(k: MonsterAIType) -> Seq<char> {
    match k {
        MonsterAIType::Basic => seq!['b'],
        MonsterAIType::Confused { num_turns } => seq!['c'] + enc_i32v(num_turns),
    }
}

/// A presence tag, then the saved variant.
pub open spec fn enc_old_ai(k: Option<MonsterAIType>) -> Seq<char> {
    match k {
        None => seq!['n'],
        Some(k) => seq!['s'] + enc_ai_kind(k),
    }
}

/// A presence tag, then the back-reference, saved variant and current
/// variant.
pub open spec fn enc_ai(a: Option<MonsterAI>) -> Seq<char> {
    match a {
        None => seq!['n'],
        Some(a) => seq!['s'] + enc_u64(a.monster_id as nat) + enc_old_ai(a.old_ai) + enc_ai_kind(
            a.ai_type,
        ),
    }
}

/// One tag character per effect.
pub open spec fn enc_item(i: Option<Item>) -> Seq<char> {
    match i {
        None => seq!['n'],
        Some(Item::Heal) => seq!['h'],
        Some(Item::Lightning) => seq!['l'],
        Some(Item::Fireball) => seq!['f'],
        Some(Item::Confuse) => seq!['c'],
        Some(Item::Nothing) => seq!['e'],
    }
}

/// One tag character per slot.
pub open spec fn enc_slot(s: Slot) -> Seq<char> {
    match s {
        Slot::RightHand => seq!['r'],
        Slot::LeftHand => seq!['l'],
    }
}

/// A presence tag, then the slot, flag and three bonuses.
pub open spec fn enc_equipment(e: Option<Equipment>) -> Seq<char> {
    match e {
        None => seq!['n'],
        Some(e) => seq!['s'] + enc_slot(e.slot) + enc_bool(e.is_equipped) + enc_i32v(e.power_bonus)
            + enc_i32v(e.defense_bonus) + enc_i32v(e.max_hp_bonus),
    }
}

/// All thirteen entity fields, in declaration order.
pub open spec fn enc_object(o: ObjectV) -> Seq<char> {
    enc_i32v(o.x) + enc_i32v(o.y) + enc_char(o.glyph) + enc_str(o.name) + enc_color(o.color)
        + enc_bool(o.blocks) + enc_bool(o.always_visible) + enc_bool(o.on_ground) + enc_i32v(
        o.level,
    ) + enc_fighter(o.fighter) + enc_ai(o.ai) + enc_item(o.item) + enc_equipment(o.equipment)
}

/// The arena entities, in order.
pub open spec fn enc_objs(s: Seq<ObjectV>) -> Seq<char>
    decreases s.len(),
{
    if s.len() == 0 {
        Seq::empty()
    } else {
        enc_objs(s.drop_last()) + enc_object(s.last())
    }
}

/// Three flag characters per tile.
pub open spec fn enc_tile(t: Tile) -> Seq<char> {
    enc_bool(t.blocked) + enc_bool(t.explored) + enc_bool(t.block_sight)
}

/// One grid column, top to bottom.
pub open spec fn enc_col(col: Seq<Tile>) -> Seq<char>
    decreases col.len(),
{
    if col.len() == 0 {
        Seq::empty()
    } else {
        enc_col(col.drop_last()) + enc_tile(col.last())
    }
}

/// The grid columns, each length-prefixed.
pub open spec fn enc_map(m: Seq<Seq<Tile>>) -> Seq<char>
    decreases m.len(),
{
    if m.len() == 0 {
        Seq::empty()
    } else {
        enc_map(m.drop_last()) + enc_u64(m.last().len()) + enc_col(m.last())
    }
}

/// One log entry: the text and its color.
pub open spec fn enc_msg(m: (Seq<char>, Color)) -> Seq<char> {
    enc_str(m.0) + enc_color(m.1)
}

/// The log entries, in order.
pub open spec fn enc_msgs(s: Seq<(Seq<char>, Color)>) -> Seq<char>
    decreases s.len(),
{
    if s.len() == 0 {
        Seq::empty()
    } else {
        enc_msgs(s.drop_last()) + enc_msg(s.last())
    }
}

/// One tag character per game state.
pub open spec fn enc_state(st: GameState) -> Seq<char> {
    match st {
        GameState::Playing => seq!['p'],
        GameState::Death => seq!['d'],
    }
}

/// A non-negative model integer as a natural (identifiers written by
/// the encoder are always in range).
pub open spec fn nat_of(i: int) -> nat {
    if i >= 0 {
        i as nat
    } else {
        0
    }
}

/// The inventory ids, in order.
pub open spec fn enc_inv(s: Seq<int>) -> Seq<char>
    decreases s.len(),
{
    if s.len() == 0 {
        Seq::empty()
    } else {
        enc_inv(s.drop_last()) + enc_u64(nat_of(s.last()))
    }
}

/// The whole snapshot: state, level, visibility flag, grid, log, arena,
/// the two ids and the inventory, every collection length-prefixed.
pub open spec fn spec_encode(g: GameV) -> Seq<char> {
    enc_state(g.state) + enc_i32v(g.dungeon_level) + enc_bool(g.fov_recompute) + enc_u64(
        g.map.len(),
    ) + enc_map(g.map) + enc_u64(g.messages.len()) + enc_msgs(g.messages) + enc_u64(
        g.objects.len(),
    ) + enc_objs(g.objects) + enc_u64(nat_of(g.player_id)) + enc_u64(nat_of(g.stairs_id)) + enc_u64(
        g.inventory.len(),
    ) + enc_inv(g.inventory)
}


fn push_u64e(out: &mut Vec<char>, v: u64)
    ensures
        final(out)@ == old(out)@ + enc_u64(v as nat),
{
    push_nat_w(out, v, 20);
}

fn push_i32e(out: &mut Vec<char>, v: i32)
    ensures
        final(out)@ == old(out)@ + enc_i32v(v),
{
    if v < 0 {
        out.push('-');
        let m: u64 = (-(v as i64)) as u64;
        proof {
            assert(m as nat == (-v) as nat);
        }
        push_nat_w(out, m, 10);
        proof {
            assert(final(out)@ =~= old(out)@ + enc_i32v(v));
        }
    } else {
        out.push('+');
        push_nat_w(out, v as u64, 10);
        proof {
            assert(final(out)@ =~= old(out)@ + enc_i32v(v));
        }
    }
}

fn push_boole(out: &mut Vec<char>, b: bool)
    ensures
        final(out)@ == old(out)@ + enc_bool(b),
{
    if b {
        out.push('t');
    } else {
        out.push('f');
    }
    proof {
        assert(final(out)@ =~= old(out)@ + enc_bool(b));
    }
}

fn push_chare(out: &mut Vec<char>, c: char)
    ensures
        final(out)@ == old(out)@ + enc_char(c),
{
    push_nat_w(out, (c as u32) as u64, 7);
}

fn push_stre(out: &mut Vec<char>, s: &String)
    ensures
        final(out)@ == old(out)@ + enc_str(s@),
{
    let ghost base = out@;
    let len = s.unicode_len();
    push_u64e(out, len as u64);
    let mut i: usize = 0;
    while i < len
        invariant
            len == s@.len(),
            0 <= i <= len,
            out@ == base + enc_u64(s@.len()) + s@.subrange(0, i as int),
        decreases len - i,
    {
        let c = s.as_str().get_char(i);
        out.push(c);
        proof {
            assert(s@.subrange(0, i + 1) =~= s@.subrange(0, i as int).push(c));
            assert(out@ =~= base + enc_u64(s@.len()) + s@.subrange(0, i + 1));
        }
        i = i + 1;
    }
    proof {
        assert(s@.subrange(0, s@.len() as int) =~= s@);
        assert(out@ =~= base + enc_str(s@));
    }
}

fn push_colore(out: &mut Vec<char>, c: Color)
    ensures
        final(out)@ == old(out)@ + enc_color(c),
{
    push_nat_w(out, c.r as u64, 3);
    push_nat_w(out, c.g as u64, 3);
    push_nat_w(out, c.b as u64, 3);
    proof {
        assert(final(out)@ =~= old(out)@ + enc_color(c));
    }
}

fn push_deathe(out: &mut Vec<char>, d: Option<DeathCallback>)
    ensures
        final(out)@ == old(out)@ + enc_death(d),
{
    let c = match d {
        None => 'n',
        Some(DeathCallback::Monster) => 'm',
        Some(DeathCallback::Player) => 'p',
    };
    out.push(c);
    proof {
        assert(final(out)@ =~= old(out)@ + enc_death(d));
    }
}

fn push_fightere(out: &mut Vec<char>, f: Option<Fighter>)
    ensures
        final(out)@ == old(out)@ + enc_fighter(f),
{
    match f {
        None => {
            out.push('n');
            proof {
                assert(final(out)@ =~= old(out)@ + enc_fighter(f));
            }
        },
        Some(f) => {
            out.push('s');
            push_i32e(out, f.base_max_hp);
            push_i32e(out, f.hp);
            push_i32e(out, f.base_defense);
            push_i32e(out, f.base_power);
            push_i32e(out, f.xp);
            push_deathe(out, f.death);
            proof {
                assert(final(out)@ =~= old(out)@ + enc_fighter(Some(f)));
            }
        },
    }
}

fn push_ai_kinde(out: &mut Vec<char>, k: MonsterAIType)
    ensures
        final(out)@ == old(out)@ + enc_ai_kind(k),
{
    match k {
        MonsterAIType::Basic => {
            out.push('b');
        },
        MonsterAIType::Confused { num_turns } => {
            out.push('c');
            push_i32e(out, num_turns);
        },
    }
    proof {
        assert(final(out)@ =~= old(out)@ + enc_ai_kind(k));
    }
}

fn push_aie(out: &mut Vec<char>, a: Option<MonsterAI>)
    ensures
        final(out)@ == old(out)@ + enc_ai(a),
{
    match a {
        None => {
            out.push('n');
            proof {
                assert(final(out)@ =~= old(out)@ + enc_ai(a));
            }
        },
        Some(a) => {
            out.push('s');
            push_u64e(out, a.monster_id as u64);
            match a.old_ai {
                None => {
                    out.push('n');
                },
                Some(k) => {
                    out.push('s');
                    push_ai_kinde(out, k);
                },
            }
            push_ai_kinde(out, a.ai_type);
            proof {
                assert(final(out)@ =~= old(out)@ + enc_ai(Some(a)));
            }
        },
    }
}

fn push_iteme(out: &mut Vec<char>, i: Option<Item>)
    ensures
        final(out)@ == old(out)@ + enc_item(i),
{
    let c = match i {
        None => 'n',
        Some(Item::Heal) => 'h',
        Some(Item::Lightning) => 'l',
        Some(Item::Fireball) => 'f',
        Some(Item::Confuse) => 'c',
        Some(Item::Nothing) => 'e',
    };
    out.push(c);
    proof {
        assert(final(out)@ =~= old(out)@ + enc_item(i));
    }
}

fn push_equipmente(out: &mut Vec<char>, e: Option<Equipment>)
    ensures
        final(out)@ == old(out)@ + enc_equipment(e),
{
    match e {
        None => {
            out.push('n');
            proof {
                assert(final(out)@ =~= old(out)@ + enc_equipment(e));
            }
        },
        Some(e) => {
            out.push('s');
            out.push(
                match e.slot {
                    Slot::RightHand => 'r',
                    Slot::LeftHand => 'l',
                },
            );
            push_boole(out, e.is_equipped);
            push_i32e(out, e.power_bonus);
            push_i32e(out, e.defense_bonus);
            push_i32e(out, e.max_hp_bonus);
            proof {
                assert(final(out)@ =~= old(out)@ + enc_equipment(Some(e)));
            }
        },
    }
}

#[verifier::rlimit(100)]
fn push_objecte(out: &mut Vec<char>, o: &Object)
    ensures
        final(out)@ == old(out)@ + enc_object(o@),
{
    let ghost base = out@;
    push_i32e(out, o.x);
    push_i32e(out, o.y);
    push_chare(out, o.glyph);
    push_stre(out, &o.name);
    let ghost part1 = enc_i32v(o@.x) + enc_i32v(o@.y) + enc_char(o@.glyph) + enc_str(o@.name);
    proof {
        assert(out@ =~= base + part1);
    }
    push_colore(out, o.color);
    push_boole(out, o.blocks);
    push_boole(out, o.always_visible);
    push_boole(out, o.on_ground);
    let ghost part2 = part1 + enc_color(o@.color) + enc_bool(o@.blocks) + enc_bool(
        o@.always_visible,
    ) + enc_bool(o@.on_ground);
    proof {
        assert(out@ =~= base + part2);
    }
    push_i32e(out, o.level);
    push_fightere(out, o.fighter);
    push_aie(out, o.ai);
    push_iteme(out, o.item);
    push_equipmente(out, o.equipment);
    proof {
        assert(out@ =~= base + (part2 + enc_i32v(o@.level) + enc_fighter(o@.fighter) + enc_ai(
            o@.ai,
        ) + enc_item(o@.item) + enc_equipment(o@.equipment)));
        assert(part2 + enc_i32v(o@.level) + enc_fighter(o@.fighter) + enc_ai(o@.ai) + enc_item(
            o@.item,
        ) + enc_equipment(o@.equipment) =~= enc_object(o@));
        assert(out@ =~= base + enc_object(o@));
    }
}

fn push_tilee(out: &mut Vec<char>, t: Tile)
    ensures
        final(out)@ == old(out)@ + enc_tile(t),
{
    push_boole(out, t.blocked);
    push_boole(out, t.explored);
    push_boole(out, t.block_sight);
    proof {
        assert(final(out)@ =~= old(out)@ + enc_tile(t));
    }
}

fn push_mape(out: &mut Vec<char>, map: &Grid)
    ensures
        final(out)@ == old(out)@ + enc_u64(grid_view(*map).len()) + enc_map(grid_view(*map)),
{
    let ghost base = out@;
    let ghost gv = grid_view(*map);
    push_u64e(out, map.len() as u64);
    let mut x: usize = 0;
    while x < map.len()
        invariant
            gv == grid_view(*map),
            gv.len() == map@.len(),
            0 <= x <= map@.len(),
            out@ == base + enc_u64(gv.len()) + enc_map(gv.subrange(0, x as int)),
        decreases map@.len() - x,
    {
        proof {
            assert(gv[x as int] == map@[x as int]@);
        }
        let col = &map[x];
        push_u64e(out, col.len() as u64);
        let ghost colbase = out@;
        let mut y: usize = 0;
        while y < col.len()
            invariant
                gv == grid_view(*map),
                gv.len() == map@.len(),
                0 <= x < map@.len(),
                gv[x as int] == col@,
                0 <= y <= col@.len(),
                out@ == colbase + enc_col(col@.subrange(0, y as int)),
            decreases col@.len() - y,
        {
            push_tilee(out, col[y]);
            proof {
                assert(col@.subrange(0, y + 1).drop_last() =~= col@.subrange(0, y as int));
                assert(col@.subrange(0, y + 1).last() == col@[y as int]);
                assert(out@ =~= colbase + enc_col(col@.subrange(0, y + 1)));
            }
            y = y + 1;
        }
        proof {
            assert(col@.subrange(0, col@.len() as int) =~= col@);
            assert(gv.subrange(0, x + 1).drop_last() =~= gv.subrange(0, x as int));
            assert(gv.subrange(0, x + 1).last() == gv[x as int]);
            assert(out@ =~= base + enc_u64(gv.len()) + enc_map(gv.subrange(0, x + 1)));
        }
        x = x + 1;
    }
    proof {
        assert(gv.subrange(0, gv.len() as int) =~= gv);
    }
}

fn push_msgse(out: &mut Vec<char>, msgs: &Vec<(String, Color)>)
    ensures
        final(out)@ == old(out)@ + enc_u64(msgs_view(msgs@).len()) + enc_msgs(msgs_view(msgs@)),
{
    let ghost base = out@;
    let ghost mv = msgs_view(msgs@);
    push_u64e(out, msgs.len() as u64);
    let mut k: usize = 0;
    while k < msgs.len()
        invariant
            mv == msgs_view(msgs@),
            mv.len() == msgs@.len(),
            0 <= k <= msgs@.len(),
            out@ == base + enc_u64(mv.len()) + enc_msgs(mv.subrange(0, k as int)),
        decreases msgs@.len() - k,
    {
        proof {
            assert(mv[k as int] == (msgs@[k as int].0@, msgs@[k as int].1));
        }
        push_stre(out, &msgs[k].0);
        push_colore(out, msgs[k].1);
        proof {
            assert(mv.subrange(0, k + 1).drop_last() =~= mv.subrange(0, k as int));
            assert(mv.subrange(0, k + 1).last() == mv[k as int]);
            assert(out@ =~= base + enc_u64(mv.len()) + enc_msgs(mv.subrange(0, k + 1)));
        }
        k = k + 1;
    }
    proof {
        assert(mv.subrange(0, mv.len() as int) =~= mv);
    }
}

fn push_objse(out: &mut Vec<char>, objects: &Vec<Object>)
    ensures
        final(out)@ == old(out)@ + enc_u64(objs_view(objects@).len()) + enc_objs(
            objs_view(objects@),
        ),
{
    let ghost base = out@;
    let ghost ov = objs_view(objects@);
    push_u64e(out, objects.len() as u64);
    let mut k: usize = 0;
    while k < objects.len()
        invariant
            ov == objs_view(objects@),
            ov.len() == objects@.len(),
            0 <= k <= objects@.len(),
            out@ == base + enc_u64(ov.len()) + enc_objs(ov.subrange(0, k as int)),
        decreases objects@.len() - k,
    {
        proof {
            assert(ov[k as int] == objects@[k as int]@);
        }
        push_objecte(out, &objects[k]);
        proof {
            assert(ov.subrange(0, k + 1).drop_last() =~= ov.subrange(0, k as int));
            assert(ov.subrange(0, k + 1).last() == ov[k as int]);
            assert(out@ =~= base + enc_u64(ov.len()) + enc_objs(ov.subrange(0, k + 1)));
        }
        k = k + 1;
    }
    proof {
        assert(ov.subrange(0, ov.len() as int) =~= ov);
    }
}

fn push_inve(out: &mut Vec<char>, inv: &Vec<usize>)
    ensures
        final(out)@ == old(out)@ + enc_u64(inv_view(inv@).len()) + enc_inv(inv_view(inv@)),
{
    let ghost base = out@;
    let ghost iv = inv_view(inv@);
    push_u64e(out, inv.len() as u64);
    let mut k: usize = 0;
    while k < inv.len()
        invariant
            iv == inv_view(inv@),
            iv.len() == inv@.len(),
            0 <= k <= inv@.len(),
            out@ == base + enc_u64(iv.len()) + enc_inv(iv.subrange(0, k as int)),
        decreases inv@.len() - k,
    {
        proof {
            assert(iv[k as int] == inv@[k as int] as int);
        }
        push_u64e(out, inv[k] as u64);
        proof {
            assert(iv.subrange(0, k + 1).drop_last() =~= iv.subrange(0, k as int));
            assert(iv.subrange(0, k + 1).last() == iv[k as int]);
            assert(out@ =~= base + enc_u64(iv.len()) + enc_inv(iv.subrange(0, k + 1)));
        }
        k = k + 1;
    }
    proof {
        assert(iv.subrange(0, iv.len() as int) =~= iv);
    }
}

/// Encodes the whole snapshot, exactly as [`spec_encode`] lays it out.
pub fn encode_game(game: &Game) -> (out: Vec<char>)
    ensures
        out@ == spec_encode(game@),
{
    let mut out: Vec<char> = Vec::new();
    out.push(
        match game.state {
            GameState::Playing => 'p',
            GameState::Death => 'd',
        },
    );
    proof {
        assert(out@ =~= enc_state(game@.state));
    }
    push_i32e(&mut out, game.dungeon_level);
    push_boole(&mut out, game.fov_recompute);
    push_mape(&mut out, &game.map);
    push_msgse(&mut out, &game.messages);
    push_objse(&mut out, &game.objects);
    push_u64e(&mut out, game.player_id as u64);
    push_u64e(&mut out, game.stairs_id as u64);
    push_inve(&mut out, &game.inventory);
    proof {
        assert(out@ =~= spec_encode(game@));
    }
    out
}


/// Relies on `String::push`: appends exactly the one character.
#[verifier::external_body]
fn push_char(s: &mut String, c: char)
    ensures
        final(s)@ == old(s)@ + seq![c],
{
    s.push(c);
}

/// Relies on `char::from_u32`: a `Some` result carries exactly the
/// given code point; `None` comes back for values that are no Unicode
/// scalar.
#[verifier::external_body]
fn char_from_u32(v: u32) -> (r: Option<char>)
    ensures
        r matches Some(c) ==> c as u32 == v,
{
    char::from_u32(v)
}

/// Reads a fixed-width decimal block. The parsers promise nothing
/// beyond position sanity: `decode_game` validates what they produce by
/// re-encoding it.
fn parse_nat_w(data: &Vec<char>, pos: usize, w: usize) -> (r: Option<(u64, usize)>)
    ensures
        r matches Some(p) ==> pos <= p.1 <= data@.len(),
{
    if pos > data.len() || w > data.len() - pos {
        return None;
    }
    let mut acc: u64 = 0;
    let mut i: usize = 0;
    while i < w
        invariant
            0 <= i <= w,
            pos + w <= data@.len(),
            data@.len() <= usize::MAX,
        decreases w - i,
    {
        let c = data[pos + i];
        let d: u64 = match c {
            '0' => 0,
            '1' => 1,
            '2' => 2,
            '3' => 3,
            '4' => 4,
            '5' => 5,
            '6' => 6,
            '7' => 7,
            '8' => 8,
            '9' => 9,
            _ => {
                return None;
            },
        };
        if acc > 1_844_674_407_370_955_160 {
            return None;
        }
        acc = acc * 10 + d;
        i = i + 1;
    }
    Some((acc, pos + w))
}

fn parse_u64p(data: &Vec<char>, pos: usize) -> (r: Option<(u64, usize)>)
    ensures
        r matches Some(p) ==> pos <= p.1 <= data@.len(),
{
    parse_nat_w(data, pos, 20)
}

fn parse_usizep(data: &Vec<char>, pos: usize) -> (r: Option<(usize, usize)>)
    ensures
        r matches Some(p) ==> pos <= p.1 <= data@.len(),
{
    match parse_u64p(data, pos) {
        Some((v, p)) => {
            if v <= usize::MAX as u64 {
                Some((v as usize, p))
            } else {
                None
            }
        },
        None => None,
    }
}

fn parse_i32p(data: &Vec<char>, pos: usize) -> (r: Option<(i32, usize)>)
    ensures
        r matches Some(p) ==> pos <= p.1 <= data@.len(),
{
    if pos >= data.len() {
        return None;
    }
    let sign = data[pos];
    match parse_nat_w(data, pos + 1, 10) {
        Some((v, p)) => {
            if sign == '-' {
                if v <= 2_147_483_648 {
                    Some(((-(v as i64)) as i32, p))
                } else {
                    None
                }
            } else if sign == '+' {
                if v <= 2_147_483_647 {
                    Some((v as i32, p))
                } else {
                    None
                }
            } else {
                None
            }
        },
        None => None,
    }
}

fn parse_boolp(data: &Vec<char>, pos: usize) -> (r: Option<(bool, usize)>)
    ensures
        r matches Some(p) ==> pos <= p.1 <= data@.len(),
{
    if pos >= data.len() {
        return None;
    }
    match data[pos] {
        't' => Some((true, pos + 1)),
        'f' => Some((false, pos + 1)),
        _ => None,
    }
}

fn parse_charp(data: &Vec<char>, pos: usize) -> (r: Option<(char, usize)>)
    ensures
        r matches Some(p) ==> pos <= p.1 <= data@.len(),
{
    match parse_nat_w(data, pos, 7) {
        Some((v, p)) => {
            if v <= u32::MAX as u64 {
                match char_from_u32(v as u32) {
                    Some(c) => Some((c, p)),
                    None => None,
                }
            } else {
                None
            }
        },
        None => None,
    }
}

fn parse_stringp(data: &Vec<char>, pos: usize) -> (r: Option<(String, usize)>)
    ensures
        r matches Some(p) ==> pos <= p.1 <= data@.len(),
{
    let (len, mut p) = match parse_u64p(data, pos) {
        Some(v) => v,
        None => {
            return None;
        },
    };
    if p > data.len() || len > (data.len() - p) as u64 {
        return None;
    }
    let n = len as usize;
    let mut out = String::new();
    let mut i: usize = 0;
    while i < n
        invariant
            0 <= i <= n,
            p + n <= data@.len(),
            data@.len() <= usize::MAX,
        decreases n - i,
    {
        push_char(&mut out, data[p + i]);
        i = i + 1;
    }
    Some((out, p + n))
}

fn parse_colorp(data: &Vec<char>, pos: usize) -> (r: Option<(Color, usize)>)
    ensures
        r matches Some(p) ==> pos <= p.1 <= data@.len(),
{
    let (rv, p1) = match parse_nat_w(data, pos, 3) {
        Some(v) => v,
        None => {
            return None;
        },
    };
    let (gv, p2) = match parse_nat_w(data, p1, 3) {
        Some(v) => v,
        None => {
            return None;
        },
    };
    let (bv, p3) = match parse_nat_w(data, p2, 3) {
        Some(v) => v,
        None => {
            return None;
        },
    };
    if rv > 255 || gv > 255 || bv > 255 {
        return None;
    }
    Some((Color { r: rv as u8, g: gv as u8, b: bv as u8 }, p3))
}

fn parse_deathp(data: &Vec<char>, pos: usize) -> (r: Option<(Option<DeathCallback>, usize)>)
    ensures
        r matches Some(p) ==> pos <= p.1 <= data@.len(),
{
    if pos >= data.len() {
        return None;
    }
    match data[pos] {
        'n' => Some((None, pos + 1)),
        'm' => Some((Some(DeathCallback::Monster), pos + 1)),
        'p' => Some((Some(DeathCallback::Player), pos + 1)),
        _ => None,
    }
}

fn parse_fighterp(data: &Vec<char>, pos: usize) -> (r: Option<(Option<Fighter>, usize)>)
    ensures
        r matches Some(p) ==> pos <= p.1 <= data@.len(),
{
    if pos >= data.len() {
        return None;
    }
    match data[pos] {
        'n' => Some((None, pos + 1)),
        's' => {
            let (base_max_hp, p1) = match parse_i32p(data, pos + 1) {
                Some(v) => v,
                None => {
                    return None;
                },
            };
            let (hp, p2) = match parse_i32p(data, p1) {
                Some(v) => v,
                None => {
                    return None;
                },
            };
            let (base_defense, p3) = match parse_i32p(data, p2) {
                Some(v) => v,
                None => {
                    return None;
                },
            };
            let (base_power, p4) = match parse_i32p(data, p3) {
                Some(v) => v,
                None => {
                    return None;
                },
            };
            let (xp, p5) = match parse_i32p(data, p4) {
                Some(v) => v,
                None => {
                    return None;
                },
            };
            let (death, p6) = match parse_deathp(data, p5) {
                Some(v) => v,
                None => {
                    return None;
                },
            };
            Some((Some(Fighter { base_max_hp, hp, base_defense, base_power, xp, death }), p6))
        },
        _ => None,
    }
}

fn parse_ai_kindp(data: &Vec<char>, pos: usize) -> (r: Option<(MonsterAIType, usize)>)
    ensures
        r matches Some(p) ==> pos <= p.1 <= data@.len(),
{
    if pos >= data.len() {
        return None;
    }
    match data[pos] {
        'b' => Some((MonsterAIType::Basic, pos + 1)),
        'c' => match parse_i32p(data, pos + 1) {
            Some((num_turns, p)) => Some((MonsterAIType::Confused { num_turns }, p)),
            None => None,
        },
        _ => None,
    }
}

fn parse_aip(data: &Vec<char>, pos: usize) -> (r: Option<(Option<MonsterAI>, usize)>)
    ensures
        r matches Some(p) ==> pos <= p.1 <= data@.len(),
{
    if pos >= data.len() {
        return None;
    }
    match data[pos] {
        'n' => Some((None, pos + 1)),
        's' => {
            let (monster_id, p1) = match parse_usizep(data, pos + 1) {
                Some(v) => v,
                None => {
                    return None;
                },
            };
            if p1 >= data.len() {
                return None;
            }
            let (old_ai, p2) = match data[p1] {
                'n' => (None, p1 + 1),
                's' => match parse_ai_kindp(data, p1 + 1) {
                    Some((k, p)) => (Some(k), p),
                    None => {
                        return None;
                    },
                },
                _ => {
                    return None;
                },
            };
            let (ai_type, p3) = match parse_ai_kindp(data, p2) {
                Some(v) => v,
                None => {
                    return None;
                },
            };
            Some((Some(MonsterAI { monster_id, old_ai, ai_type }), p3))
        },
        _ => None,
    }
}

fn parse_itemp(data: &Vec<char>, pos: usize) -> (r: Option<(Option<Item>, usize)>)
    ensures
        r matches Some(p) ==> pos <= p.1 <= data@.len(),
{
    if pos >= data.len() {
        return None;
    }
    match data[pos] {
        'n' => Some((None, pos + 1)),
        'h' => Some((Some(Item::Heal), pos + 1)),
        'l' => Some((Some(Item::Lightning), pos + 1)),
        'f' => Some((Some(Item::Fireball), pos + 1)),
        'c' => Some((Some(Item::Confuse), pos + 1)),
        'e' => Some((Some(Item::Nothing), pos + 1)),
        _ => None,
    }
}

fn parse_equipmentp(data: &Vec<char>, pos: usize) -> (r: Option<(Option<Equipment>, usize)>)
    ensures
        r matches Some(p) ==> pos <= p.1 <= data@.len(),
{
    if pos >= data.len() {
        return None;
    }
    match data[pos] {
        'n' => Some((None, pos + 1)),
        's' => {
            if pos + 1 >= data.len() {
                return None;
            }
            let slot = match data[pos + 1] {
                'r' => Slot::RightHand,
                'l' => Slot::LeftHand,
                _ => {
                    return None;
                },
            };
            let (is_equipped, p1) = match parse_boolp(data, pos + 2) {
                Some(v) => v,
                None => {
                    return None;
                },
            };
            let (power_bonus, p2) = match parse_i32p(data, p1) {
                Some(v) => v,
                None => {
                    return None;
                },
            };
            let (defense_bonus, p3) = match parse_i32p(data, p2) {
                Some(v) => v,
                None => {
                    return None;
                },
            };
            let (max_hp_bonus, p4) = match parse_i32p(data, p3) {
                Some(v) => v,
                None => {
                    return None;
                },
            };
            Some((
                Some(Equipment { slot, is_equipped, power_bonus, defense_bonus, max_hp_bonus }),
                p4,
            ))
        },
        _ => None,
    }
}

fn parse_objectp(data: &Vec<char>, pos: usize) -> (r: Option<(Object, usize)>)
    ensures
        r matches Some(p) ==> pos <= p.1 <= data@.len(),
{
    let (x, p1) = match parse_i32p(data, pos) {
        Some(v) => v,
        None => {
            return None;
        },
    };
    let (y, p2) = match parse_i32p(data, p1) {
        Some(v) => v,
        None => {
            return None;
        },
    };
    let (glyph, p3) = match parse_charp(data, p2) {
        Some(v) => v,
        None => {
            return None;
        },
    };
    let (name, p4) = match parse_stringp(data, p3) {
        Some(v) => v,
        None => {
            return None;
        },
    };
    let (color, p5) = match parse_colorp(data, p4) {
        Some(v) => v,
        None => {
            return None;
        },
    };
    let (blocks, p6) = match parse_boolp(data, p5) {
        Some(v) => v,
        None => {
            return None;
        },
    };
    let (always_visible, p7) = match parse_boolp(data, p6) {
        Some(v) => v,
        None => {
            return None;
        },
    };
    let (on_ground, p8) = match parse_boolp(data, p7) {
        Some(v) => v,
        None => {
            return None;
        },
    };
    let (level, p9) = match parse_i32p(data, p8) {
        Some(v) => v,
        None => {
            return None;
        },
    };
    let (fighter, p10) = match parse_fighterp(data, p9) {
        Some(v) => v,
        None => {
            return None;
        },
    };
    let (ai, p11) = match parse_aip(data, p10) {
        Some(v) => v,
        None => {
            return None;
        },
    };
    let (item, p12) = match parse_itemp(data, p11) {
        Some(v) => v,
        None => {
            return None;
        },
    };
    let (equipment, p13) = match parse_equipmentp(data, p12) {
        Some(v) => v,
        None => {
            return None;
        },
    };
    Some((
        Object {
            x,
            y,
            glyph,
            name,
            color,
            blocks,
            always_visible,
            on_ground,
            level,
            fighter,
            ai,
            item,
            equipment,
        },
        p13,
    ))
}

fn parse_gridp(data: &Vec<char>, pos: usize) -> (r: Option<(Grid, usize)>)
    ensures
        r matches Some(p) ==> pos <= p.1 <= data@.len(),
{
    let (cols, mut p) = match parse_usizep(data, pos) {
        Some(v) => v,
        None => {
            return None;
        },
    };
    if cols > data.len() {
        return None;
    }
    let mut map: Grid = Vec::new();
    let mut x: usize = 0;
    while x < cols
        invariant
            0 <= x <= cols,
            pos <= p <= data@.len(),
        decreases cols - x,
    {
        let (rows, mut q) = match parse_usizep(data, p) {
            Some(v) => v,
            None => {
                return None;
            },
        };
        if rows > data.len() {
            return None;
        }
        let mut col: Vec<Tile> = Vec::new();
        let mut y: usize = 0;
        while y < rows
            invariant
                0 <= y <= rows,
                p <= q <= data@.len(),
                pos <= p <= data@.len(),
            decreases rows - y,
        {
            let (blocked, q1) = match parse_boolp(data, q) {
                Some(v) => v,
                None => {
                    return None;
                },
            };
            let (explored, q2) = match parse_boolp(data, q1) {
                Some(v) => v,
                None => {
                    return None;
                },
            };
            let (block_sight, q3) = match parse_boolp(data, q2) {
                Some(v) => v,
                None => {
                    return None;
                },
            };
            col.push(Tile { blocked, explored, block_sight });
            q = q3;
            y = y + 1;
        }
        map.push(col);
        p = q;
        x = x + 1;
    }
    Some((map, p))
}

/// Parses a whole snapshot. The parsers alone promise nothing of what
/// they build; `decode_game` establishes everything by validation.
fn parse_game(data: &Vec<char>) -> (r: Option<Game>) {
    if data.len() == 0 {
        return None;
    }
    let state = match data[0] {
        'p' => GameState::Playing,
        'd' => GameState::Death,
        _ => {
            return None;
        },
    };
    let (dungeon_level, p1) = match parse_i32p(data, 1) {
        Some(v) => v,
        None => {
            return None;
        },
    };
    let (fov_recompute, p2) = match parse_boolp(data, p1) {
        Some(v) => v,
        None => {
            return None;
        },
    };
    let (map, p3) = match parse_gridp(data, p2) {
        Some(v) => v,
        None => {
            return None;
        },
    };
    let (n_msgs, mut p4) = match parse_usizep(data, p3) {
        Some(v) => v,
        None => {
            return None;
        },
    };
    if n_msgs > data.len() {
        return None;
    }
    let mut messages: Vec<(String, Color)> = Vec::new();
    let mut k: usize = 0;
    while k < n_msgs
        invariant
            0 <= k <= n_msgs,
            p4 <= data@.len(),
        decreases n_msgs - k,
    {
        let (text, q1) = match parse_stringp(data, p4) {
            Some(v) => v,
            None => {
                return None;
            },
        };
        let (color, q2) = match parse_colorp(data, q1) {
            Some(v) => v,
            None => {
                return None;
            },
        };
        messages.push((text, color));
        p4 = q2;
        k = k + 1;
    }
    let (n_objs, mut p5) = match parse_usizep(data, p4) {
        Some(v) => v,
        None => {
            return None;
        },
    };
    if n_objs > data.len() {
        return None;
    }
    let mut objects: Vec<Object> = Vec::new();
    let mut k: usize = 0;
    while k < n_objs
        invariant
            0 <= k <= n_objs,
            p5 <= data@.len(),
        decreases n_objs - k,
    {
        let (o, q) = match parse_objectp(data, p5) {
            Some(v) => v,
            None => {
                return None;
            },
        };
        objects.push(o);
        p5 = q;
        k = k + 1;
    }
    let (player_id, p6) = match parse_usizep(data, p5) {
        Some(v) => v,
        None => {
            return None;
        },
    };
    let (stairs_id, p7) = match parse_usizep(data, p6) {
        Some(v) => v,
        None => {
            return None;
        },
    };
    let (n_inv, mut p8) = match parse_usizep(data, p7) {
        Some(v) => v,
        None => {
            return None;
        },
    };
    if n_inv > data.len() {
        return None;
    }
    let mut inventory: Vec<usize> = Vec::new();
    let mut k: usize = 0;
    while k < n_inv
        invariant
            0 <= k <= n_inv,
            p8 <= data@.len(),
        decreases n_inv - k,
    {
        let (id, q) = match parse_usizep(data, p8) {
            Some(v) => v,
            None => {
                return None;
            },
        };
        inventory.push(id);
        p8 = q;
        k = k + 1;
    }
    if p8 != data.len() {
        return None;
    }
    Some(
        Game {
            state,
            dungeon_level,
            map,
            fov_recompute,
            messages,
            objects,
            player_id,
            stairs_id,
            inventory,
        },
    )
}

/// Character-sequence equality.
fn chars_eq(a: &Vec<char>, b: &Vec<char>) -> (r: bool)
    ensures
        r ==> a@ == b@,
{
    if a.len() != b.len() {
        return false;
    }
    let mut i: usize = 0;
    while i < a.len()
        invariant
            a@.len() == b@.len(),
            0 <= i <= a@.len(),
            forall|k: int| 0 <= k < i ==> a@[k] == b@[k],
        decreases a@.len() - i,
    {
        if a[i] != b[i] {
            return false;
        }
        i = i + 1;
    }
    proof {
        assert(a@ =~= b@);
    }
    true
}

/// Decodes a snapshot. A `Some` answer is a well-formed game whose
/// encoding is exactly the input — anything else, a missing or tampered
/// save included, comes back `None`, a recoverable condition.
///
/// The contract is one-directional: it pins what a `Some` answer is,
/// but does not oblige the decoder to accept every well-formed game's
/// encoding (that converse would need the parser and the validator
/// proved complete, and the encoding proved injective, none of which is
/// stated here). The round trip on fresh snapshots is exercised by a
/// test.
pub fn decode_game(data: &Vec<char>) -> (r: Option<Game>)
    ensures
        r matches Some(g) ==> g@.wf() && spec_encode(g@) == data@,
{
    let parsed = match parse_game(data) {
        Some(g) => g,
        None => {
            return None;
        },
    };
    if !is_well_formed(&parsed) {
        return None;
    }
    let re = encode_game(&parsed);
    if !chars_eq(&re, data) {
        return None;
    }
    Some(parsed)
}

} // verus!