//! The executable interpreter, proved to follow the model in `machine`.
use vstd::prelude::*;
use vstd::arithmetic::div_mod::lemma_fundamental_div_mod_converse;
use crate::machine::{
    address, blank_screen, draw_sprite, exec_alu, exec_misc, exec_op, family, first_down, font,
    initial, initial_ram, loaded, low_byte, low_nibble, meets, reg_x, reg_y, skip_if, sprite_bit,
    sprite_cell, step, visible_rows, timers_ticked, word_at, EmuError, Machine, FLAG_REG, FONTSET_SIZE,
    FONT_ADDR, NUM_KEYS, NUM_REGS, RAM_SIZE, SCREEN_HEIGHT, SCREEN_WIDTH, STACK_SIZE, START_ADDR,
};

verus! {

/// The interpreter's whole state.
pub struct Emu {
    pc: u16,
    ram: Vec<u8>,
    screen: Vec<bool>,
    keys: Vec<bool>,
    v_reg: Vec<u8>,
    i_reg: u16,
    /// Live return addresses, oldest first.
    stack: Vec<u16>,
    dt: u8,
    st: u8,
}

/// Relies on `rand::random::<u8>`, which draws a byte from the thread-local
/// generator: any byte may come back.
#[verifier::external_body]
fn random_byte() -> (r: u8) {
    rand::random::<u8>()
}

impl View for Emu {
    type V = Machine;

    closed spec fn view(&self) -> Machine {
        Machine {
            pc: self.pc,
            ram: self.ram@,
            screen: self.screen@,
            keys: self.keys@,
            v: self.v_reg@,
            i: self.i_reg,
            stack: self.stack@,
            dt: self.dt,
            st: self.st,
        }
    }
}

/// The font glyphs, in order.
fn fontset() -> (r: Vec<u8>)
    ensures
        r@ == font(),
{
    let r = vec![
        0xF0u8, 0x90, 0x90, 0x90, 0xF0,
        0x20, 0x60, 0x20, 0x20, 0x70,
        0xF0, 0x10, 0xF0, 0x80, 0xF0,
        0xF0, 0x10, 0xF0, 0x10, 0xF0,
        0x90, 0x90, 0xF0, 0x10, 0x10,
        0xF0, 0x80, 0xF0, 0x10, 0xF0,
        0xF0, 0x80, 0xF0, 0x90, 0xF0,
        0xF0, 0x10, 0x20, 0x40, 0x40,
        0xF0, 0x90, 0xF0, 0x90, 0xF0,
        0xF0, 0x90, 0xF0, 0x10, 0xF0,
        0xF0, 0x90, 0xF0, 0x90, 0x90,
        0xE0, 0x90, 0xE0, 0x90, 0xE0,
        0xF0, 0x80, 0x80, 0x80, 0xF0,
        0xE0, 0x90, 0x90, 0x90, 0xE0,
        0xF0, 0x80, 0xF0, 0x80, 0xF0,
        0xF0, 0x80, 0xF0, 0x80, 0x80,
    ];
    assert(r@ =~= font());
    r
}

/// Fresh memory: zeroed, with the font at its base address.
fn initial_memory() -> (r: Vec<u8>)
    ensures
        r@ == initial_ram(),
{
    let glyphs = fontset();
    let mut ram = vec![0u8; RAM_SIZE];
    let mut j: usize = 0;
    while j < FONTSET_SIZE
        invariant
            j <= FONTSET_SIZE,
            glyphs@ == font(),
            ram@.len() == RAM_SIZE,
            forall|a: int|
                0 <= a < RAM_SIZE ==> #[trigger] ram@[a] == if FONT_ADDR <= a < FONT_ADDR + j {
                    font()[a - FONT_ADDR]
                } else {
                    0u8
                },
        decreases FONTSET_SIZE - j,
    {
        ram.set(FONT_ADDR as usize + j, glyphs[j]);
        j += 1;
    }
    assert(ram@ =~= initial_ram());
    ram
}

/// Whether the sprite covers cell `k` and comes before position `p` in the
/// order in which the draw loop visits sprite bits (row by row, eight per row).
spec fn drawn_before(s: Machine, x0: int, y0: int, n: int, k: int, p: int) -> bool {
    &&& sprite_cell(s, x0, y0, n, k)
    &&& (k / SCREEN_WIDTH as int - y0) * 8 + (k % SCREEN_WIDTH as int - x0) < p
}

proof fn lemma_cell_of(px: int, py: int)
    requires
        0 <= px < SCREEN_WIDTH,
        0 <= py < SCREEN_HEIGHT,
    ensures
        (px + SCREEN_WIDTH * py) % SCREEN_WIDTH as int == px,
        (px + SCREEN_WIDTH * py) / SCREEN_WIDTH as int == py,
        0 <= px + SCREEN_WIDTH * py < SCREEN_WIDTH * SCREEN_HEIGHT,
{
    lemma_fundamental_div_mod_converse(px + SCREEN_WIDTH * py, SCREEN_WIDTH as int, py, px);
}

proof fn lemma_coords_of(k: int)
    requires
        0 <= k < SCREEN_WIDTH * SCREEN_HEIGHT,
    ensures
        k == k % SCREEN_WIDTH as int + SCREEN_WIDTH * (k / SCREEN_WIDTH as int),
        0 <= (k % SCREEN_WIDTH as int) < SCREEN_WIDTH,
        0 <= (k / SCREEN_WIDTH as int) < SCREEN_HEIGHT,
{
}

/// Two draw positions that cover the same cells see the same collisions.
proof fn lemma_same_collision(s: Machine, x0: int, y0: int, n: int, a: int, b: int)
    requires
        forall|k: int|
            0 <= k < s.screen.len() ==> drawn_before(s, x0, y0, n, k, a) == drawn_before(
                s,
                x0,
                y0,
                n,
                k,
                b,
            ),
    ensures
        (exists|k: int|
            0 <= k < s.screen.len() && s.screen[k] && #[trigger] drawn_before(s, x0, y0, n, k, a))
            == (exists|k: int|
            0 <= k < s.screen.len() && s.screen[k] && #[trigger] drawn_before(s, x0, y0, n, k, b)),
{
    if exists|k: int|
        0 <= k < s.screen.len() && s.screen[k] && #[trigger] drawn_before(s, x0, y0, n, k, a) {
        let k = choose|k: int|
            0 <= k < s.screen.len() && s.screen[k] && #[trigger] drawn_before(s, x0, y0, n, k, a);
        assert(drawn_before(s, x0, y0, n, k, b));
    }
    if exists|k: int|
        0 <= k < s.screen.len() && s.screen[k] && #[trigger] drawn_before(s, x0, y0, n, k, b) {
        let k = choose|k: int|
            0 <= k < s.screen.len() && s.screen[k] && #[trigger] drawn_before(s, x0, y0, n, k, b);
        assert(drawn_before(s, x0, y0, n, k, a));
    }
}

/// The draw loop's visit of sprite bit (row, col) concerns exactly one cell.
proof fn lemma_draw_step(s: Machine, x0: int, y0: int, n: int, row: int, col: int)
    requires
        s.wf(),
        0 <= x0 + col < SCREEN_WIDTH,
        0 <= y0 + row < SCREEN_HEIGHT,
        0 <= x0,
        0 <= y0,
        0 <= row < n,
        0 <= col < 8,
    ensures
        ({
            let idx = x0 + col + SCREEN_WIDTH * (y0 + row);
            let p = row * 8 + col;
            &&& 0 <= idx < s.screen.len()
            &&& drawn_before(s, x0, y0, n, idx, p + 1) == sprite_bit(s.ram[s.i + row], col)
            &&& !drawn_before(s, x0, y0, n, idx, p)
            &&& forall|k: int|
                0 <= k < s.screen.len() && k != idx ==> drawn_before(s, x0, y0, n, k, p + 1)
                    == drawn_before(s, x0, y0, n, k, p)
        }),
{
    let idx = x0 + col + SCREEN_WIDTH * (y0 + row);
    let p = row * 8 + col;
    lemma_cell_of(x0 + col, y0 + row);
    assert forall|k: int|
        0 <= k < s.screen.len() && k != idx implies drawn_before(s, x0, y0, n, k, p + 1)
            == drawn_before(s, x0, y0, n, k, p) by {
        lemma_coords_of(k);
    }
}

/// Visiting a set sprite bit over cell `idx` adds a collision exactly when
/// that cell was lit.
proof fn lemma_flip_step(s: Machine, x0: int, y0: int, n: int, p: int, idx: int)
    requires
        0 <= idx < s.screen.len(),
        drawn_before(s, x0, y0, n, idx, p + 1),
        !drawn_before(s, x0, y0, n, idx, p),
        forall|k: int|
            0 <= k < s.screen.len() && k != idx ==> drawn_before(s, x0, y0, n, k, p + 1)
                == drawn_before(s, x0, y0, n, k, p),
    ensures
        (exists|k: int|
            0 <= k < s.screen.len() && s.screen[k] && #[trigger] drawn_before(
                s,
                x0,
                y0,
                n,
                k,
                p + 1,
            )) == ((exists|k: int|
            0 <= k < s.screen.len() && s.screen[k] && #[trigger] drawn_before(s, x0, y0, n, k, p))
            || s.screen[idx]),
{
    if exists|k: int|
        0 <= k < s.screen.len() && s.screen[k] && #[trigger] drawn_before(s, x0, y0, n, k, p) {
        let k = choose|k: int|
            0 <= k < s.screen.len() && s.screen[k] && #[trigger] drawn_before(s, x0, y0, n, k, p);
        assert(drawn_before(s, x0, y0, n, k, p + 1));
    }
    if exists|k: int|
        0 <= k < s.screen.len() && s.screen[k] && #[trigger] drawn_before(
            s,
            x0,
            y0,
            n,
            k,
            p + 1,
        ) {
        let k = choose|k: int|
            0 <= k < s.screen.len() && s.screen[k] && #[trigger] drawn_before(
                s,
                x0,
                y0,
                n,
                k,
                p + 1,
            );
        if k != idx {
            assert(drawn_before(s, x0, y0, n, k, p));
        }
    }
}

impl Emu {
    /// Every container has its fixed size.
    pub open spec fn wf(&self) -> bool {
        self@.wf()
    }

    /// A machine in its initial state: font seeded, counter at the start
    /// address, everything else zero.
    pub fn new() -> (r: Emu)
        ensures
            r@ == initial(),
            r.wf(),
    {
        let r = Emu {
            pc: START_ADDR,
            ram: initial_memory(),
            screen: vec![false; SCREEN_WIDTH * SCREEN_HEIGHT],
            keys: vec![false; NUM_KEYS],
            v_reg: vec![0u8; NUM_REGS],
            i_reg: 0,
            stack: Vec::new(),
            dt: 0,
            st: 0,
        };
        assert(r@ =~= initial()) by {
            assert(r.screen@ =~= blank_screen());
            assert(r.keys@ =~= Seq::new(NUM_KEYS as nat, |k: int| false));
            assert(r.v_reg@ =~= Seq::new(NUM_REGS as nat, |k: int| 0u8));
            assert(r.stack@ =~= Seq::<u16>::empty());
        }
        r
    }

    /// Puts the machine back in exactly the state `new` gives.
    pub fn reset(&mut self)
        ensures
            final(self)@ == initial(),
            final(self).wf(),
    {
        *self = Emu::new();
    }

    /// Sprite draw (0xDxyn): XORs `n` rows from memory at the index register
    /// onto the framebuffer at the origin held in registers `x` and `y`,
    /// wrapping the origin and clipping at the edges. Rows below the bottom
    /// edge are not read.
    pub fn draw(&mut self, x: u16, y: u16, n: u16) -> (r: Result<(), EmuError>)
        requires
            old(self).wf(),
            x < NUM_REGS,
            y < NUM_REGS,
            n < 16,
        ensures
            final(self).wf(),
            meets(old(self)@, final(self)@, r, draw_sprite(old(self)@, x as int, y as int, n as int)),
    {
        let x0 = self.v_reg[x as usize] as usize % SCREEN_WIDTH;
        let y0 = self.v_reg[y as usize] as usize % SCREEN_HEIGHT;
        let vis = if (n as usize) < SCREEN_HEIGHT - y0 {
            n as usize
        } else {
            SCREEN_HEIGHT - y0
        };
        if vis > 0 && self.i_reg as usize + vis > RAM_SIZE {
            return Err(EmuError::OutOfBounds);
        }
        let ghost s = self@;
        let ghost len = s.screen.len() as int;
        // Rows past the bottom edge and columns past the right edge are
        // clipped: the loops stop there instead of wrapping.
        let mut flip = false;
        let mut row: u16 = 0;
        while row < n && y0 + (row as usize) < SCREEN_HEIGHT
            invariant
                s == old(self)@,
                s.wf(),
                x0 == s.v[x as int] as int % SCREEN_WIDTH as int,
                y0 == s.v[y as int] as int % SCREEN_HEIGHT as int,
                n < 16,
                vis == visible_rows(n as int, y0 as int),
                vis == 0 || s.i + vis <= RAM_SIZE,
                row <= n,
                x < NUM_REGS,
                y < NUM_REGS,
                len == SCREEN_WIDTH * SCREEN_HEIGHT,
                self@ == (Machine { screen: self@.screen, ..s }),
                self@.screen.len() == len,
                forall|k: int|
                    0 <= k < len ==> #[trigger] self@.screen[k] == (s.screen[k] != drawn_before(
                        s,
                        x0 as int,
                        y0 as int,
                        n as int,
                        k,
                        row * 8,
                    )),
                flip == exists|k: int|
                    0 <= k < len && s.screen[k] && #[trigger] drawn_before(
                        s,
                        x0 as int,
                        y0 as int,
                        n as int,
                        k,
                        row * 8,
                    ),
            decreases n - row,
        {
            let pixels = self.ram[self.i_reg as usize + row as usize];
            let mut col: u8 = 0;
            let ghost mut p: int = row * 8;
            while col < 8 && x0 + (col as usize) < SCREEN_WIDTH
                invariant
                    s == old(self)@,
                    s.wf(),
                    x0 == s.v[x as int] as int % SCREEN_WIDTH as int,
                    y0 == s.v[y as int] as int % SCREEN_HEIGHT as int,
                    n < 16,
                    row < n,
                    y0 + row < SCREEN_HEIGHT,
                    s.i + row < RAM_SIZE,
                    pixels == s.ram[s.i + row],
                    col <= 8,
                    p == row * 8 + col,
                    x < NUM_REGS,
                    y < NUM_REGS,
                    len == SCREEN_WIDTH * SCREEN_HEIGHT,
                    self@ == (Machine { screen: self@.screen, ..s }),
                    self@.screen.len() == len,
                    forall|k: int|
                        0 <= k < len ==> #[trigger] self@.screen[k] == (s.screen[k]
                            != drawn_before(s, x0 as int, y0 as int, n as int, k, p)),
                    flip == exists|k: int|
                        0 <= k < len && s.screen[k] && #[trigger] drawn_before(
                            s,
                            x0 as int,
                            y0 as int,
                            n as int,
                            k,
                            p,
                        ),
                decreases 8 - col,
            {
                let bit = (pixels >> (7 - col)) & 1 == 1;
                assert(bit == sprite_bit(pixels, col as int));
                proof {
                    lemma_draw_step(s, x0 as int, y0 as int, n as int, row as int, col as int);
                }
                if bit {
                    let idx = x0 + col as usize + SCREEN_WIDTH * (y0 + row as usize);
                    let was_on = self.screen[idx];
                    proof {
                        lemma_flip_step(s, x0 as int, y0 as int, n as int, p, idx as int);
                    }
                    flip = flip || was_on;
                    self.screen.set(idx, !was_on);
                } else {
                    proof {
                        lemma_same_collision(s, x0 as int, y0 as int, n as int, p, p + 1);
                    }
                }
                col += 1;
                proof {
                    p = p + 1;
                }
            }
            let ghost p_end = p;
            let ghost p_next = (row + 1) * 8;
            assert forall|k: int| 0 <= k < len implies drawn_before(
                s,
                x0 as int,
                y0 as int,
                n as int,
                k,
                p_end,
            ) == drawn_before(s, x0 as int, y0 as int, n as int, k, p_next) by {
                lemma_coords_of(k);
            }
            row += 1;
        }
        let ghost p_end = row * 8;
        assert forall|k: int| 0 <= k < len implies drawn_before(
            s,
            x0 as int,
            y0 as int,
            n as int,
            k,
            p_end,
        ) == sprite_cell(s, x0 as int, y0 as int, n as int, k) by {
            lemma_coords_of(k);
        }
        self.v_reg.set(FLAG_REG, if flip { 1 } else { 0 });
        proof {
            let m = draw_sprite(s, x as int, y as int, n as int)->Ok_0;
            assert(self@.screen =~= m.screen);
            assert(self@.v =~= m.v);
        }
        Ok(())
    }

    /// The register-to-register instructions (0x8xyN).
    fn alu(&mut self, op: u16) -> (r: Result<(), EmuError>)
        requires
            old(self).wf(),
        ensures
            final(self).wf(),
            meets(old(self)@, final(self)@, r, exec_alu(old(self)@, op)),
    {
        let x = ((op / 0x100) % 16) as usize;
        let y = ((op / 0x10) % 16) as usize;
        let vx = self.v_reg[x];
        let vy = self.v_reg[y];
        let n = op % 16;
        assert(x == reg_x(op) && y == reg_y(op) && n == low_nibble(op));
        if n == 0x0 {
            self.v_reg.set(x, vy);
        } else if n == 0x1 {
            self.v_reg.set(x, vx | vy);
        } else if n == 0x2 {
            self.v_reg.set(x, vx & vy);
        } else if n == 0x3 {
            self.v_reg.set(x, vx ^ vy);
        } else if n == 0x4 {
            let carry = vx as u16 + vy as u16 > 255;
            self.v_reg.set(x, vx.wrapping_add(vy));
            self.v_reg.set(FLAG_REG, if carry { 1 } else { 0 });
        } else if n == 0x5 {
            let no_borrow = vx >= vy;
            self.v_reg.set(x, vx.wrapping_sub(vy));
            self.v_reg.set(FLAG_REG, if no_borrow { 1 } else { 0 });
        } else if n == 0x6 {
            assert(vx >> 1 == vx / 2) by (bit_vector);
            assert(vx & 1 == vx % 2) by (bit_vector);
            self.v_reg.set(x, vx >> 1);
            self.v_reg.set(FLAG_REG, vx & 1);
        } else if n == 0x7 {
            let no_borrow = vy >= vx;
            self.v_reg.set(x, vy.wrapping_sub(vx));
            self.v_reg.set(FLAG_REG, if no_borrow { 1 } else { 0 });
        } else if n == 0xE {
            assert(vx << 1 == ((vx * 2) % 256) as u8) by (bit_vector);
            assert(vx >> 7 == vx / 128) by (bit_vector);
            self.v_reg.set(x, vx << 1);
            self.v_reg.set(FLAG_REG, vx >> 7);
        } else {
            return Err(EmuError::UnknownOpcode(op));
        }
        proof {
            assert(self@.v =~= exec_alu(old(self)@, op)->Ok_0.v);
        }
        Ok(())
    }

    /// Moves the counter past the next instruction when `cond` holds.
    fn skip_when(&mut self, cond: bool) -> (r: Result<(), EmuError>)
        requires
            old(self).wf(),
        ensures
            final(self).wf(),
            meets(old(self)@, final(self)@, r, skip_if(old(self)@, cond)),
    {
        if cond {
            if self.pc > u16::MAX - 2 {
                return Err(EmuError::OutOfBounds);
            }
            self.pc = self.pc + 2;
        }
        Ok(())
    }

    /// Pushes a return address; the stack holds at most `STACK_SIZE`.
    fn push(&mut self, val: u16) -> (r: Result<(), EmuError>)
        requires
            old(self).wf(),
        ensures
            final(self).wf(),
            old(self)@.stack.len() < STACK_SIZE ==> r == Ok::<(), EmuError>(()) && final(self)@
                == (Machine { stack: old(self)@.stack.push(val), ..old(self)@ }),
            old(self)@.stack.len() >= STACK_SIZE ==> r == Err::<(), EmuError>(EmuError::OutOfBounds)
                && final(self)@ == old(self)@,
    {
        if self.stack.len() >= STACK_SIZE {
            return Err(EmuError::OutOfBounds);
        }
        self.stack.push(val);
        Ok(())
    }

    /// Pops the most recent return address.
    fn pop(&mut self) -> (r: Result<u16, EmuError>)
        requires
            old(self).wf(),
        ensures
            final(self).wf(),
            old(self)@.stack.len() > 0 ==> r == Ok::<u16, EmuError>(old(self)@.stack.last())
                && final(self)@ == (Machine { stack: old(self)@.stack.drop_last(), ..old(self)@ }),
            old(self)@.stack.len() == 0 ==> r == Err::<u16, EmuError>(EmuError::OutOfBounds)
                && final(self)@ == old(self)@,
    {
        match self.stack.pop() {
            Some(v) => Ok(v),
            None => Err(EmuError::OutOfBounds),
        }
    }

    /// Index of the lowest key that is down, or `NUM_KEYS` if none is.
    fn lowest_key_down(&self) -> (k: usize)
        requires
            self.wf(),
        ensures
            k == first_down(self@.keys, 0),
    {
        let mut k: usize = 0;
        while k < NUM_KEYS && !self.keys[k]
            invariant
                self.wf(),
                k <= NUM_KEYS,
                first_down(self@.keys, 0) == first_down(self@.keys, k as int),
            decreases NUM_KEYS - k,
        {
            k += 1;
        }
        k
    }

    /// Timers, keypad wait, index arithmetic, decimal digits and register
    /// spills (0xFxNN).
    fn misc(&mut self, op: u16) -> (r: Result<(), EmuError>)
        requires
            old(self).wf(),
        ensures
            final(self).wf(),
            meets(old(self)@, final(self)@, r, exec_misc(old(self)@, op)),
    {
        let ghost s = self@;
        let x = ((op / 0x100) % 16) as usize;
        let vx = self.v_reg[x];
        let b = op % 0x100;
        assert(x == reg_x(op) && b == low_byte(op));
        if b == 0x07 {
            self.v_reg.set(x, self.dt);
        } else if b == 0x0A {
            let k = self.lowest_key_down();
            if k < NUM_KEYS {
                self.v_reg.set(x, k as u8);
            } else if self.pc < 2 {
                return Err(EmuError::OutOfBounds);
            } else {
                self.pc = self.pc - 2;
            }
        } else if b == 0x15 {
            self.dt = vx;
        } else if b == 0x18 {
            self.st = vx;
        } else if b == 0x1E {
            let i = self.i_reg.wrapping_add(vx as u16);
            self.i_reg = i;
            self.v_reg.set(FLAG_REG, if i >= 0x1000 { 1 } else { 0 });
        } else if b == 0x29 {
            self.i_reg = FONT_ADDR + (vx % 16) as u16 * 5;
        } else if b == 0x33 {
            let i = self.i_reg as usize;
            if i + 3 > RAM_SIZE {
                return Err(EmuError::OutOfBounds);
            }
            self.ram.set(i, vx / 100);
            self.ram.set(i + 1, (vx / 10) % 10);
            self.ram.set(i + 2, vx % 10);
        } else if b == 0x55 {
            let i = self.i_reg as usize;
            if i + x + 1 > RAM_SIZE {
                return Err(EmuError::OutOfBounds);
            }
            let mut j: usize = 0;
            while j <= x
                invariant
                    s == old(self)@,
                    s.wf(),
                    x < NUM_REGS,
                    i == s.i,
                    i + x + 1 <= RAM_SIZE,
                    j <= x + 1,
                    self@ == (Machine { ram: self@.ram, ..s }),
                    self@.ram.len() == RAM_SIZE,
                    forall|a: int|
                        0 <= a < RAM_SIZE ==> #[trigger] self@.ram[a] == if i <= a < i + j {
                            s.v[a - i]
                        } else {
                            s.ram[a]
                        },
                decreases x + 1 - j,
            {
                let val = self.v_reg[j];
                self.ram.set(i + j, val);
                j += 1;
            }
            assert(self@.ram =~= exec_misc(s, op)->Ok_0.ram);
        } else if b == 0x65 {
            let i = self.i_reg as usize;
            if i + x + 1 > RAM_SIZE {
                return Err(EmuError::OutOfBounds);
            }
            let mut j: usize = 0;
            while j <= x
                invariant
                    s == old(self)@,
                    s.wf(),
                    x < NUM_REGS,
                    i == s.i,
                    i + x + 1 <= RAM_SIZE,
                    j <= x + 1,
                    self@ == (Machine { v: self@.v, ..s }),
                    self@.v.len() == NUM_REGS,
                    forall|r: int|
                        0 <= r < NUM_REGS ==> #[trigger] self@.v[r] == if r < j {
                            s.ram[i + r]
                        } else {
                            s.v[r]
                        },
                decreases x + 1 - j,
            {
                let val = self.ram[i + j];
                self.v_reg.set(j, val);
                j += 1;
            }
            assert(self@.v =~= exec_misc(s, op)->Ok_0.v);
        } else {
            return Err(EmuError::UnknownOpcode(op));
        }
        proof {
            if exec_misc(s, op) is Ok {
                assert(self@.v =~= exec_misc(s, op)->Ok_0.v);
                assert(self@.ram =~= exec_misc(s, op)->Ok_0.ram);
            }
        }
        Ok(())
    }

    /// Executes the instruction word `op`, the counter already pointing past
    /// it; `rnd` is the random byte that 0xCxnn masks. On failure nothing
    /// changes.
    pub fn execute_with(&mut self, op: u16, rnd: u8) -> (r: Result<(), EmuError>)
        requires
            old(self).wf(),
        ensures
            final(self).wf(),
            meets(old(self)@, final(self)@, r, exec_op(old(self)@, op, rnd)),
    {
        let x = ((op / 0x100) % 16) as usize;
        let y = ((op / 0x10) % 16) as usize;
        let vx = self.v_reg[x];
        let vy = self.v_reg[y];
        let fam = op / 0x1000;
        let nn = (op % 0x100) as u8;
        let nnn = op % 0x1000;
        assert(x == reg_x(op) && y == reg_y(op) && fam == family(op) && nn == low_byte(op) && nnn
            == address(op));
        if op == 0x0000 {
        } else if op == 0x00E0 {
            self.screen = vec![false; SCREEN_WIDTH * SCREEN_HEIGHT];
            assert(self@.screen =~= blank_screen());
        } else if op == 0x00EE {
            match self.pop() {
                Ok(ret) => self.pc = ret,
                Err(e) => return Err(e),
            }
        } else if fam == 0x1 {
            self.pc = nnn;
        } else if fam == 0x2 {
            let ret = self.pc;
            match self.push(ret) {
                Ok(()) => self.pc = nnn,
                Err(e) => return Err(e),
            }
        } else if fam == 0x3 {
            return self.skip_when(vx == nn);
        } else if fam == 0x4 {
            return self.skip_when(vx != nn);
        } else if fam == 0x5 && op % 16 == 0 {
            return self.skip_when(vx == vy);
        } else if fam == 0x6 {
            self.v_reg.set(x, nn);
        } else if fam == 0x7 {
            self.v_reg.set(x, vx.wrapping_add(nn));
        } else if fam == 0x8 {
            return self.alu(op);
        } else if fam == 0x9 && op % 16 == 0 {
            return self.skip_when(vx != vy);
        } else if fam == 0xA {
            self.i_reg = nnn;
        } else if fam == 0xB {
            self.pc = self.v_reg[0] as u16 + nnn;
        } else if fam == 0xC {
            self.v_reg.set(x, rnd & nn);
        } else if fam == 0xD {
            let n = op % 16;
            assert(n == low_nibble(op));
            return self.draw(x as u16, y as u16, n);
        } else if fam == 0xE && (nn == 0x9E || nn == 0xA1) {
            if vx as usize >= NUM_KEYS {
                return Err(EmuError::OutOfBounds);
            }
            let down = self.keys[vx as usize];
            return self.skip_when(if nn == 0x9E { down } else { !down });
        } else if fam == 0xF {
            return self.misc(op);
        } else {
            return Err(EmuError::UnknownOpcode(op));
        }
        proof {
            if exec_op(old(self)@, op, rnd) is Ok {
                assert(self@.v =~= exec_op(old(self)@, op, rnd)->Ok_0.v);
            }
        }
        Ok(())
    }

    /// Executes the instruction word `op`, the counter already pointing past
    /// it. On failure nothing changes.
    pub fn execute(&mut self, op: u16) -> (r: Result<(), EmuError>)
        requires
            old(self).wf(),
        ensures
            final(self).wf(),
            exists|rnd: u8| meets(old(self)@, final(self)@, r, #[trigger] exec_op(old(self)@, op, rnd)),
    {
        let rnd = if op / 0x1000 == 0xC {
            random_byte()
        } else {
            0
        };
        let r = self.execute_with(op, rnd);
        assert(meets(old(self)@, self@, r, exec_op(old(self)@, op, rnd)));
        r
    }

    /// Reads the instruction word at the counter and moves the counter past it.
    fn fetch(&mut self) -> (r: Result<u16, EmuError>)
        requires
            old(self).wf(),
        ensures
            final(self).wf(),
            old(self).pc + 1 < RAM_SIZE ==> r == Ok::<u16, EmuError>(
                word_at(old(self)@.ram, old(self)@.pc as int),
            ) && final(self)@ == old(self)@.with_pc((old(self)@.pc + 2) as u16),
            old(self).pc + 1 >= RAM_SIZE ==> r == Err::<u16, EmuError>(EmuError::OutOfBounds)
                && final(self)@ == old(self)@,
    {
        let pc = self.pc as usize;
        if pc + 1 >= RAM_SIZE {
            return Err(EmuError::OutOfBounds);
        }
        let hi = self.ram[pc] as u16;
        let lo = self.ram[pc + 1] as u16;
        let op = (hi << 8) | lo;
        assert(op == hi * 256 + lo) by (bit_vector)
            requires
                hi < 256,
                lo < 256,
                op == (hi << 8) | lo,
        ;
        self.pc = self.pc + 2;
        Ok(op)
    }

    /// Fetches, decodes and executes one instruction. On failure nothing
    /// changes.
    pub fn tick(&mut self) -> (r: Result<(), EmuError>)
        requires
            old(self).wf(),
        ensures
            final(self).wf(),
            exists|rnd: u8| meets(old(self)@, final(self)@, r, #[trigger] step(old(self)@, rnd)),
    {
        let start = self.pc;
        let op = match self.fetch() {
            Ok(op) => op,
            Err(e) => {
                assert(meets(old(self)@, self@, Err(e), step(old(self)@, 0)));
                return Err(e);
            },
        };
        let ghost fetched = self@;
        let r = self.execute(op);
        let ghost rnd = choose|rnd: u8| meets(fetched, self@, r, #[trigger] exec_op(fetched, op, rnd));
        if r.is_err() {
            self.pc = start;
        }
        assert(meets(old(self)@, self@, r, step(old(self)@, rnd)));
        r
    }

    /// Advances both timers by one tick; returns whether the sound timer
    /// just ran out, which is when the tone stops.
    pub fn tick_timers(&mut self) -> (stopped: bool)
        requires
            old(self).wf(),
        ensures
            final(self).wf(),
            final(self)@ == timers_ticked(old(self)@),
            stopped == (old(self)@.st == 1),
    {
        if self.dt > 0 {
            self.dt = self.dt - 1;
        }
        let mut stopped = false;
        if self.st > 0 {
            self.st = self.st - 1;
            stopped = self.st == 0;
        }
        stopped
    }

    /// The framebuffer, row by row: cell (x, y) is at `x + SCREEN_WIDTH * y`.
    pub fn get_screen(&self) -> (r: &[bool])
        ensures
            r@ == self@.screen,
    {
        self.screen.as_slice()
    }

    /// Copies a program into memory at the start address.
    pub fn load(&mut self, data: &[u8])
        requires
            old(self).wf(),
            START_ADDR + data@.len() <= RAM_SIZE,
        ensures
            final(self).wf(),
            final(self)@ == (Machine { ram: loaded(old(self)@.ram, data@), ..old(self)@ }),
    {
        let ghost s = self@;
        let start = START_ADDR as usize;
        let mut j: usize = 0;
        while j < data.len()
            invariant
                s == old(self)@,
                s.wf(),
                start == START_ADDR,
                start + data@.len() <= RAM_SIZE,
                j <= data@.len(),
                self@ == (Machine { ram: self@.ram, ..s }),
                self@.ram.len() == RAM_SIZE,
                forall|a: int|
                    0 <= a < RAM_SIZE ==> #[trigger] self@.ram[a] == if start <= a < start + j {
                        data@[a - start]
                    } else {
                        s.ram[a]
                    },
            decreases data@.len() - j,
        {
            self.ram.set(start + j, data[j]);
            j += 1;
        }
        assert(self@.ram =~= loaded(s.ram, data@));
    }

    /// Records whether key `key` is down.
    pub fn keypress(&mut self, key: usize, down: bool)
        requires
            old(self).wf(),
            key < NUM_KEYS,
        ensures
            final(self).wf(),
            final(self)@ == (Machine { keys: old(self)@.keys.update(key as int, down), ..old(self)@ }),
    {
        self.keys.set(key, down);
    }

    /// The program counter.
    pub fn pc(&self) -> (r: u16)
        ensures
            r == self@.pc,
    {
        self.pc
    }

    /// The index register.
    pub fn index(&self) -> (r: u16)
        ensures
            r == self@.i,
    {
        self.i_reg
    }

    /// General register `x`.
    pub fn register(&self, x: usize) -> (r: u8)
        requires
            self.wf(),
            x < NUM_REGS,
        ensures
            r == self@.v[x as int],
    {
        self.v_reg[x]
    }

    /// The byte at memory address `addr`.
    pub fn memory(&self, addr: usize) -> (r: u8)
        requires
            self.wf(),
            addr < RAM_SIZE,
        ensures
            r == self@.ram[addr as int],
    {
        self.ram[addr]
    }

    /// The delay timer.
    pub fn delay_timer(&self) -> (r: u8)
        ensures
            r == self@.dt,
    {
        self.dt
    }

    /// The sound timer.
    pub fn sound_timer(&self) -> (r: u8)
        ensures
            r == self@.st,
    {
        self.st
    }

    /// Number of return addresses on the call stack.
    pub fn stack_depth(&self) -> (r: usize)
        ensures
            r == self@.stack.len(),
    {
        self.stack.len()
    }
}

} // verus!
