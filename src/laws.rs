//! Properties of the instruction set, proved over the model that the
//! interpreter's contracts speak of.
use vstd::prelude::*;
use crate::machine::{
    address, draw_sprite, exec_op, family, first_down, low_byte, low_nibble, reg_x, reg_y,
    sprite_cell, step, visible_rows, word_at, Machine, FLAG_REG, NUM_KEYS, NUM_REGS, RAM_SIZE,
    SCREEN_WIDTH,
};

verus! {

/// Words that choose the next address themselves: return, jump, call, jump
/// with offset, the conditional skips and the keypad wait.
pub open spec fn is_control_flow(op: u16) -> bool {
    let fam = family(op);
    ||| op == 0x00EE
    ||| fam == 0x1 || fam == 0x2 || fam == 0xB
    ||| fam == 0x3 || fam == 0x4 || fam == 0x5 || fam == 0x9 || fam == 0xE
    ||| fam == 0xF && low_byte(op) == 0x0A
}

/// Words that skip the next instruction on a condition.
pub open spec fn is_skip(op: u16) -> bool {
    let fam = family(op);
    ||| fam == 0x3 || fam == 0x4
    ||| (fam == 0x5 || fam == 0x9) && low_nibble(op) == 0
    ||| fam == 0xE && (low_byte(op) == 0x9E || low_byte(op) == 0xA1)
}

/// The condition under which a skip word skips.
pub open spec fn skip_taken(s: Machine, op: u16) -> bool {
    let fam = family(op);
    let vx = s.v[reg_x(op)];
    let vy = s.v[reg_y(op)];
    if fam == 0x3 {
        vx == low_byte(op)
    } else if fam == 0x4 {
        vx != low_byte(op)
    } else if fam == 0x5 {
        vx == vy
    } else if fam == 0x9 {
        vx != vy
    } else if low_byte(op) == 0x9E {
        s.keys[vx as int]
    } else {
        !s.keys[vx as int]
    }
}

/// Any word that is not control flow and executes moves the counter forward
/// by exactly one instruction.
pub proof fn law_plain_advance(s: Machine, rnd: u8)
    requires
        s.wf(),
        step(s, rnd) is Ok,
        !is_control_flow(word_at(s.ram, s.pc as int)),
    ensures
        step(s, rnd)->Ok_0.pc == s.pc + 2,
{
}

/// Jump, call, return and jump with offset set the counter to their
/// documented targets; call and return push and pop the return address.
pub proof fn law_jump_targets(s: Machine, rnd: u8)
    requires
        s.wf(),
        step(s, rnd) is Ok,
    ensures
        ({
            let op = word_at(s.ram, s.pc as int);
            let t = step(s, rnd)->Ok_0;
            &&& family(op) == 0x1 ==> t.pc == address(op)
            &&& family(op) == 0x2 ==> t.pc == address(op) && t.stack == s.stack.push(
                (s.pc + 2) as u16,
            )
            &&& op == 0x00EE ==> t.pc == s.stack.last() && t.stack == s.stack.drop_last()
            &&& family(op) == 0xB ==> t.pc == s.v[0] + address(op)
        }),
{
}

/// A skip word moves the counter by two instructions when its condition
/// holds, by one otherwise.
pub proof fn law_skip(s: Machine, rnd: u8)
    requires
        s.wf(),
        step(s, rnd) is Ok,
        is_skip(word_at(s.ram, s.pc as int)),
    ensures
        step(s, rnd)->Ok_0.pc == if skip_taken(
            s,
            word_at(s.ram, s.pc as int),
        ) {
            s.pc + 4
        } else {
            s.pc + 2
        },
{
}

proof fn lemma_first_down(keys: Seq<bool>, from: int)
    requires
        0 <= from <= keys.len(),
    ensures
        (forall|j: int| from <= j < keys.len() ==> !keys[j]) ==> first_down(keys, from)
            == keys.len(),
        forall|k: int|
            from <= k < keys.len() && keys[k] && (forall|j: int| from <= j < k ==> !keys[j])
                ==> first_down(keys, from) == k,
    decreases keys.len() - from,
{
    if from < keys.len() {
        lemma_first_down(keys, from + 1);
    }
}

/// The keypad wait: with no key down the whole step is undone, so the same
/// word runs again on the next call; otherwise the lowest key that is down
/// goes into the register and execution moves on.
pub proof fn law_key_wait(s: Machine, rnd: u8)
    requires
        s.wf(),
        s.pc + 1 < RAM_SIZE,
        family(word_at(s.ram, s.pc as int)) == 0xF,
        low_byte(word_at(s.ram, s.pc as int)) == 0x0A,
    ensures
        (forall|k: int| 0 <= k < NUM_KEYS ==> !s.keys[k]) ==> step(s, rnd) == Ok::<
            Machine,
            crate::machine::EmuError,
        >(s),
        forall|k: int|
            0 <= k < NUM_KEYS && s.keys[k] && (forall|j: int| 0 <= j < k ==> !s.keys[j])
                ==> step(s, rnd) is Ok && step(s, rnd)->Ok_0.pc == s.pc + 2 && step(
                s,
                rnd,
            )->Ok_0.v[reg_x(word_at(s.ram, s.pc as int))] == k && step(s, rnd)->Ok_0.keys
                == s.keys,
{
    lemma_first_down(s.keys, 0);
    assert((Machine { pc: s.pc, ..s }) == s);
}

/// 0x7xnn adds modulo 256 and leaves the flag register alone (unless it is
/// the target).
pub proof fn law_add_immediate(s: Machine, op: u16, rnd: u8)
    requires
        s.wf(),
        family(op) == 0x7,
        reg_x(op) != FLAG_REG,
    ensures
        exec_op(s, op, rnd) is Ok,
        exec_op(s, op, rnd)->Ok_0.v[reg_x(op)] == (s.v[reg_x(op)] + low_byte(op)) % 256,
        exec_op(s, op, rnd)->Ok_0.v[FLAG_REG as int] == s.v[FLAG_REG as int],
{
}

/// 0x8xy4, 0x8xy5 and 0x8xy7 compute modulo 256 and set the flag register
/// to the carry, or to 1 exactly when no borrow occurred; the flag is
/// written last, so it wins when it is also the target.
pub proof fn law_arith_flags(s: Machine, op: u16, rnd: u8)
    requires
        s.wf(),
        family(op) == 0x8,
        low_nibble(op) == 0x4 || low_nibble(op) == 0x5 || low_nibble(op) == 0x7,
    ensures
        exec_op(s, op, rnd) is Ok,
        ({
            let t = exec_op(s, op, rnd)->Ok_0;
            let vx = s.v[reg_x(op)];
            let vy = s.v[reg_y(op)];
            let f = FLAG_REG as int;
            &&& low_nibble(op) == 0x4 ==> t.v[f] == (if vx + vy > 255 { 1int } else { 0 }) && (
            reg_x(op) != f ==> t.v[reg_x(op)] == (vx + vy) % 256)
            &&& low_nibble(op) == 0x5 ==> t.v[f] == (if vx >= vy { 1int } else { 0 }) && (reg_x(
                op,
            ) != f ==> t.v[reg_x(op)] == (vx - vy) % 256)
            &&& low_nibble(op) == 0x7 ==> t.v[f] == (if vy >= vx { 1int } else { 0 }) && (reg_x(
                op,
            ) != f ==> t.v[reg_x(op)] == (vy - vx) % 256)
        }),
{
}

/// Drawing the same sprite at the same place twice leaves the framebuffer
/// as it was, and the second draw reports a collision exactly when the first
/// lit some cell. The origin registers must not be the flag register, which
/// the first draw overwrites.
pub proof fn law_draw_twice(s: Machine, x: int, y: int, n: int)
    requires
        s.wf(),
        0 <= x < FLAG_REG,
        0 <= y < FLAG_REG,
        0 <= n < 16,
        draw_sprite(s, x, y, n) is Ok,
    ensures
        ({
            let t = draw_sprite(s, x, y, n)->Ok_0;
            &&& draw_sprite(t, x, y, n) is Ok
            &&& draw_sprite(t, x, y, n)->Ok_0.screen == s.screen
            &&& (draw_sprite(t, x, y, n)->Ok_0.v[FLAG_REG as int] == 1) == exists|k: int|
                0 <= k < s.screen.len() && #[trigger] t.screen[k] && !s.screen[k]
        }),
{
    let t = draw_sprite(s, x, y, n)->Ok_0;
    let u = draw_sprite(t, x, y, n)->Ok_0;
    let x0 = s.v[x] as int % SCREEN_WIDTH as int;
    let y0 = s.v[y] as int % crate::machine::SCREEN_HEIGHT as int;
    assert(t.v[x] == s.v[x] && t.v[y] == s.v[y]);
    assert forall|k: int| 0 <= k < s.screen.len() implies #[trigger] sprite_cell(t, x0, y0, n, k)
        == sprite_cell(s, x0, y0, n, k) by {}
    assert(u.screen =~= s.screen);
    let lit = exists|k: int| 0 <= k < s.screen.len() && #[trigger] t.screen[k] && !s.screen[k];
    let hit = exists|k: int|
        0 <= k < t.screen.len() && t.screen[k] && #[trigger] sprite_cell(t, x0, y0, n, k);
    if lit {
        let k = choose|k: int| 0 <= k < s.screen.len() && #[trigger] t.screen[k] && !s.screen[k];
        assert(sprite_cell(t, x0, y0, n, k));
    }
    if hit {
        let k = choose|k: int|
            0 <= k < t.screen.len() && t.screen[k] && #[trigger] sprite_cell(t, x0, y0, n, k);
        assert(t.screen[k] && !s.screen[k]);
    }
}

/// A draw never touches a cell left of its origin column: what would pass the
/// right edge is dropped, not wrapped to the left columns.
pub proof fn law_draw_clips_right(s: Machine, x: int, y: int, n: int)
    requires
        s.wf(),
        0 <= x < NUM_REGS,
        0 <= y < NUM_REGS,
        0 <= n < 16,
        draw_sprite(s, x, y, n) is Ok,
    ensures
        forall|k: int|
            0 <= k < s.screen.len() && (k % SCREEN_WIDTH as int) < (s.v[x] as int
                % SCREEN_WIDTH as int) ==> #[trigger] draw_sprite(s, x, y, n)->Ok_0.screen[k]
                == s.screen[k],
{
}

/// Rows below the bottom edge are never read: a sprite whose visible rows lie
/// in memory draws, whatever follows them.
pub proof fn law_draw_reads_visible_rows(s: Machine, x: int, y: int, n: int)
    requires
        s.wf(),
        0 <= x < NUM_REGS,
        0 <= y < NUM_REGS,
        0 <= n < 16,
        s.i + visible_rows(n, s.v[y] as int % crate::machine::SCREEN_HEIGHT as int) <= RAM_SIZE,
    ensures
        draw_sprite(s, x, y, n) is Ok,
{
}

/// Spilling registers 0..=x to memory and loading them straight back gives
/// the same registers, and neither instruction moves the index register.
pub proof fn law_store_load_round_trip(s: Machine, store: u16, load: u16, r1: u8, r2: u8)
    requires
        s.wf(),
        family(store) == 0xF,
        low_byte(store) == 0x55,
        family(load) == 0xF,
        low_byte(load) == 0x65,
        reg_x(store) == reg_x(load),
        exec_op(s, store, r1) is Ok,
    ensures
        ({
            let t = exec_op(s, store, r1)->Ok_0;
            &&& t.i == s.i
            &&& exec_op(t, load, r2) is Ok
            &&& exec_op(t, load, r2)->Ok_0.v == s.v
            &&& exec_op(t, load, r2)->Ok_0.i == s.i
        }),
{
    let t = exec_op(s, store, r1)->Ok_0;
    let u = exec_op(t, load, r2)->Ok_0;
    assert(u.v =~= s.v);
}

/// Only 0xCxnn reads the random byte: every other word has one outcome, so
/// the contracts of `tick` and `execute` fix their result for it.
pub proof fn law_random_only_in_cxnn(s: Machine, op: u16, r1: u8, r2: u8)
    requires
        s.wf(),
    ensures
        family(op) != 0xC ==> exec_op(s, op, r1) == exec_op(s, op, r2),
        family(word_at(s.ram, s.pc as int)) != 0xC ==> step(s, r1) == step(s, r2),
{
}

} // verus!
