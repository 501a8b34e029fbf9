//! The mathematical model of the CHIP-8 machine and the meaning of each
//! instruction, as spec functions over that model.
use vstd::prelude::*;

verus! {

/// Width of the framebuffer, in cells.
pub const SCREEN_WIDTH: usize = 64;

/// Height of the framebuffer, in cells.
pub const SCREEN_HEIGHT: usize = 32;

/// Number of addressable bytes of memory.
pub const RAM_SIZE: usize = 4096;

/// Number of general registers.
pub const NUM_REGS: usize = 16;

/// Capacity of the call stack, in return addresses.
pub const STACK_SIZE: usize = 16;

/// Number of keys on the keypad.
pub const NUM_KEYS: usize = 16;

/// Index of the register that doubles as carry, borrow and collision flag.
pub const FLAG_REG: usize = 15;

/// Where programs are loaded, and where execution starts.
pub const START_ADDR: u16 = 0x200;

/// Where the built-in hexadecimal font is written.
pub const FONT_ADDR: u16 = 0x050;

/// Size of the built-in font: sixteen glyphs of five bytes.
pub const FONTSET_SIZE: usize = 80;

/// A fatal condition met while executing an instruction.
#[derive(Clone, Copy, Debug, PartialEq, Eq, Structural)]
pub enum EmuError {
    /// The fetched word matches no instruction.
    UnknownOpcode(u16),
    /// A memory address, a key index, a call-stack access or a 16-bit
    /// address computation fell outside its fixed capacity.
    OutOfBounds,
}

/// The abstract state of the machine.
pub ghost struct Machine {
    pub pc: u16,
    pub ram: Seq<u8>,
    pub screen: Seq<bool>,
    pub keys: Seq<bool>,
    pub v: Seq<u8>,
    pub i: u16,
    /// Live return addresses, oldest first.
    pub stack: Seq<u16>,
    pub dt: u8,
    pub st: u8,
}

impl Machine {
    /// Every container has its fixed size, and the stack is within capacity.
    pub open spec fn wf(self) -> bool {
        &&& self.ram.len() == RAM_SIZE
        &&& self.screen.len() == SCREEN_WIDTH * SCREEN_HEIGHT
        &&& self.keys.len() == NUM_KEYS
        &&& self.v.len() == NUM_REGS
        &&& self.stack.len() <= STACK_SIZE
    }

    pub open spec fn with_reg(self, x: int, val: u8) -> Machine {
        Machine { v: self.v.update(x, val), ..self }
    }

    pub open spec fn with_pc(self, pc: u16) -> Machine {
        Machine { pc, ..self }
    }
}

/// The glyphs of the hexadecimal digits 0 to F, five rows each.
pub open spec fn font() -> Seq<u8> {
    seq![
        0xF0u8, 0x90, 0x90, 0x90, 0xF0,
        0x20, 0x60, 0x20, 0x20, 0x70,
        0xF0, 0x10, 0xF0, 0x80, 0xF0,
        0xF0, 0x10, 0xF0, 0x10, 0xF0,
        0x90, 0x90, 0xF0, 0x10, 0x10,
        0xF0, 0x80, 0xF0, 0x10, 0xF0,
        0xF0, 0x80, 0xF0, 0x90, 0xF0,
        0xF0, 0x10, 0x20, 0x40, 0x40,
        0xF0, 0x90, 0xF0, 0x90, 0xF0,
        0xF0, 0x90, 0xF0, 0x10, 0xF0,
        0xF0, 0x90, 0xF0, 0x90, 0x90,
        0xE0, 0x90, 0xE0, 0x90, 0xE0,
        0xF0, 0x80, 0x80, 0x80, 0xF0,
        0xE0, 0x90, 0x90, 0x90, 0xE0,
        0xF0, 0x80, 0xF0, 0x80, 0xF0,
        0xF0, 0x80, 0xF0, 0x80, 0x80,
    ]
}

/// Memory that is zero but for the font at its base address.
pub open spec fn initial_ram() -> Seq<u8> {
    Seq::new(
        RAM_SIZE as nat,
        |a: int|
            if FONT_ADDR <= a < FONT_ADDR + FONTSET_SIZE {
                font()[a - FONT_ADDR]
            } else {
                0u8
            },
    )
}

pub open spec fn blank_screen() -> Seq<bool> {
    Seq::new((SCREEN_WIDTH * SCREEN_HEIGHT) as nat, |k: int| false)
}

/// The state after construction and after every reset.
pub open spec fn initial() -> Machine {
    Machine {
        pc: START_ADDR,
        ram: initial_ram(),
        screen: blank_screen(),
        keys: Seq::new(NUM_KEYS as nat, |k: int| false),
        v: Seq::new(NUM_REGS as nat, |r: int| 0u8),
        i: 0,
        stack: Seq::empty(),
        dt: 0,
        st: 0,
    }
}

/// Memory after a program is copied in at the start address.
pub open spec fn loaded(ram: Seq<u8>, data: Seq<u8>) -> Seq<u8> {
    Seq::new(
        ram.len(),
        |a: int|
            if START_ADDR <= a < START_ADDR + data.len() {
                data[a - START_ADDR]
            } else {
                ram[a]
            },
    )
}

/// The instruction word at `pc`: two bytes, most significant first.
pub open spec fn word_at(ram: Seq<u8>, pc: int) -> u16 {
    (ram[pc] * 256 + ram[pc + 1]) as u16
}

pub open spec fn family(op: u16) -> u16 {
    op / 0x1000
}

pub open spec fn reg_x(op: u16) -> int {
    ((op / 0x100) % 16) as int
}

pub open spec fn reg_y(op: u16) -> int {
    ((op / 0x10) % 16) as int
}

pub open spec fn low_nibble(op: u16) -> u16 {
    op % 16
}

pub open spec fn low_byte(op: u16) -> u8 {
    (op % 0x100) as u8
}

pub open spec fn address(op: u16) -> u16 {
    op % 0x1000
}

/// Skips the next instruction when `cond` holds; the new address must fit in
/// 16 bits.
pub open spec fn skip_if(s: Machine, cond: bool) -> Result<Machine, EmuError> {
    if !cond {
        Ok(s)
    } else if s.pc + 2 > u16::MAX {
        Err(EmuError::OutOfBounds)
    } else {
        Ok(s.with_pc((s.pc + 2) as u16))
    }
}

/// The 0x8xyN register-to-register instructions.
pub open spec fn exec_alu(s: Machine, op: u16) -> Result<Machine, EmuError> {
    let x = reg_x(op);
    let vx = s.v[x];
    let vy = s.v[reg_y(op)];
    let f = FLAG_REG as int;
    let n = low_nibble(op);
    if n == 0x0 {
        Ok(s.with_reg(x, vy))
    } else if n == 0x1 {
        Ok(s.with_reg(x, vx | vy))
    } else if n == 0x2 {
        Ok(s.with_reg(x, vx & vy))
    } else if n == 0x3 {
        Ok(s.with_reg(x, vx ^ vy))
    } else if n == 0x4 {
        Ok(s.with_reg(x, ((vx + vy) % 256) as u8).with_reg(f, if vx + vy > 255 { 1 } else { 0 }))
    } else if n == 0x5 {
        Ok(s.with_reg(x, ((vx - vy) % 256) as u8).with_reg(f, if vx >= vy { 1 } else { 0 }))
    } else if n == 0x6 {
        Ok(s.with_reg(x, vx / 2).with_reg(f, vx % 2))
    } else if n == 0x7 {
        Ok(s.with_reg(x, ((vy - vx) % 256) as u8).with_reg(f, if vy >= vx { 1 } else { 0 }))
    } else if n == 0xE {
        Ok(s.with_reg(x, ((vx * 2) % 256) as u8).with_reg(f, vx / 128))
    } else {
        Err(EmuError::UnknownOpcode(op))
    }
}

/// Whether bit `col` of a sprite row is set, counting from the most
/// significant bit.
pub open spec fn sprite_bit(row: u8, col: int) -> bool {
    (row >> ((7 - col) as u8)) & 1u8 == 1u8
}

/// Whether the sprite of `n` rows at index `s.i`, with its top left corner at
/// cell (x0, y0), has a set bit over cell (px, py).
pub open spec fn sprite_hit(s: Machine, x0: int, y0: int, n: int, px: int, py: int) -> bool {
    &&& y0 <= py < y0 + n
    &&& x0 <= px < x0 + 8
    &&& sprite_bit(s.ram[s.i + (py - y0)], px - x0)
}

/// Whether the sprite covers framebuffer cell `k`; cells past the right or
/// bottom edge do not exist, so what would fall there is clipped.
pub open spec fn sprite_cell(s: Machine, x0: int, y0: int, n: int, k: int) -> bool {
    sprite_hit(s, x0, y0, n, k % SCREEN_WIDTH as int, k / SCREEN_WIDTH as int)
}

/// How many of `n` sprite rows starting at row `y0` lie above the bottom edge.
pub open spec fn visible_rows(n: int, y0: int) -> int {
    if n < SCREEN_HEIGHT - y0 {
        n
    } else {
        SCREEN_HEIGHT - y0
    }
}

/// Sprite draw of `n` rows with its origin in registers `x` and `y`: the
/// origin wraps, the sprite is XORed onto the framebuffer and clipped at its
/// edges, and the flag reports whether a lit cell went out. Only the rows
/// above the bottom edge are read from memory.
pub open spec fn draw_sprite(s: Machine, x: int, y: int, n: int) -> Result<Machine, EmuError> {
    let x0 = s.v[x] as int % SCREEN_WIDTH as int;
    let y0 = s.v[y] as int % SCREEN_HEIGHT as int;
    let vis = visible_rows(n, y0);
    if vis > 0 && s.i + vis > RAM_SIZE {
        Err(EmuError::OutOfBounds)
    } else {
        let screen = Seq::new(
            s.screen.len(),
            |k: int| s.screen[k] != sprite_cell(s, x0, y0, n, k),
        );
        let collision = exists|k: int|
            0 <= k < s.screen.len() && s.screen[k] && #[trigger] sprite_cell(s, x0, y0, n, k);
        Ok(Machine { screen, ..s }.with_reg(FLAG_REG as int, if collision { 1 } else { 0 }))
    }
}

/// The lowest index from `from` on of a key that is down, or the number of
/// keys if none is.
pub open spec fn first_down(keys: Seq<bool>, from: int) -> int
    decreases keys.len() - from,
{
    if from < 0 || from >= keys.len() {
        keys.len() as int
    } else if keys[from] {
        from
    } else {
        first_down(keys, from + 1)
    }
}

/// The 0xFxNN instructions.
pub open spec fn exec_misc(s: Machine, op: u16) -> Result<Machine, EmuError> {
    let x = reg_x(op);
    let vx = s.v[x];
    let b = low_byte(op);
    if b == 0x07 {
        Ok(s.with_reg(x, s.dt))
    } else if b == 0x0A {
        let k = first_down(s.keys, 0);
        if k < s.keys.len() {
            Ok(s.with_reg(x, k as u8))
        } else if s.pc < 2 {
            Err(EmuError::OutOfBounds)
        } else {
            Ok(s.with_pc((s.pc - 2) as u16))
        }
    } else if b == 0x15 {
        Ok(Machine { dt: vx, ..s })
    } else if b == 0x18 {
        Ok(Machine { st: vx, ..s })
    } else if b == 0x1E {
        let i = ((s.i + vx) % 0x10000) as u16;
        Ok(Machine { i, ..s }.with_reg(FLAG_REG as int, if i >= 0x1000 { 1 } else { 0 }))
    } else if b == 0x29 {
        Ok(Machine { i: (FONT_ADDR + (vx % 16) * 5) as u16, ..s })
    } else if b == 0x33 {
        if s.i + 3 > RAM_SIZE {
            Err(EmuError::OutOfBounds)
        } else {
            let ram = s.ram.update(s.i as int, (vx / 100) as u8).update(
                s.i + 1,
                ((vx / 10) % 10) as u8,
            ).update(s.i + 2, (vx % 10) as u8);
            Ok(Machine { ram, ..s })
        }
    } else if b == 0x55 {
        if s.i + x + 1 > RAM_SIZE {
            Err(EmuError::OutOfBounds)
        } else {
            let ram = Seq::new(
                s.ram.len(),
                |a: int|
                    if s.i <= a <= s.i + x {
                        s.v[a - s.i]
                    } else {
                        s.ram[a]
                    },
            );
            Ok(Machine { ram, ..s })
        }
    } else if b == 0x65 {
        if s.i + x + 1 > RAM_SIZE {
            Err(EmuError::OutOfBounds)
        } else {
            let v = Seq::new(
                s.v.len(),
                |r: int|
                    if r <= x {
                        s.ram[s.i + r]
                    } else {
                        s.v[r]
                    },
            );
            Ok(Machine { v, ..s })
        }
    } else {
        Err(EmuError::UnknownOpcode(op))
    }
}

/// The effect of instruction `op` on a machine whose program counter already
/// points past it. `rnd` is the random byte that 0xCxnn uses.
pub open spec fn exec_op(s: Machine, op: u16, rnd: u8) -> Result<Machine, EmuError> {
    let x = reg_x(op);
    let vx = s.v[x];
    let vy = s.v[reg_y(op)];
    let fam = family(op);
    if op == 0x0000 {
        Ok(s)
    } else if op == 0x00E0 {
        Ok(Machine { screen: blank_screen(), ..s })
    } else if op == 0x00EE {
        if s.stack.len() == 0 {
            Err(EmuError::OutOfBounds)
        } else {
            Ok(Machine { pc: s.stack.last(), stack: s.stack.drop_last(), ..s })
        }
    } else if fam == 0x1 {
        Ok(s.with_pc(address(op)))
    } else if fam == 0x2 {
        if s.stack.len() >= STACK_SIZE {
            Err(EmuError::OutOfBounds)
        } else {
            Ok(Machine { pc: address(op), stack: s.stack.push(s.pc), ..s })
        }
    } else if fam == 0x3 {
        skip_if(s, vx == low_byte(op))
    } else if fam == 0x4 {
        skip_if(s, vx != low_byte(op))
    } else if fam == 0x5 && low_nibble(op) == 0 {
        skip_if(s, vx == vy)
    } else if fam == 0x6 {
        Ok(s.with_reg(x, low_byte(op)))
    } else if fam == 0x7 {
        Ok(s.with_reg(x, ((vx + low_byte(op)) % 256) as u8))
    } else if fam == 0x8 {
        exec_alu(s, op)
    } else if fam == 0x9 && low_nibble(op) == 0 {
        skip_if(s, vx != vy)
    } else if fam == 0xA {
        Ok(Machine { i: address(op), ..s })
    } else if fam == 0xB {
        Ok(s.with_pc((s.v[0] + address(op)) as u16))
    } else if fam == 0xC {
        Ok(s.with_reg(x, rnd & low_byte(op)))
    } else if fam == 0xD {
        draw_sprite(s, reg_x(op), reg_y(op), low_nibble(op) as int)
    } else if fam == 0xE && low_byte(op) == 0x9E {
        if vx >= s.keys.len() {
            Err(EmuError::OutOfBounds)
        } else {
            skip_if(s, s.keys[vx as int])
        }
    } else if fam == 0xE && low_byte(op) == 0xA1 {
        if vx >= s.keys.len() {
            Err(EmuError::OutOfBounds)
        } else {
            skip_if(s, !s.keys[vx as int])
        }
    } else if fam == 0xF {
        exec_misc(s, op)
    } else {
        Err(EmuError::UnknownOpcode(op))
    }
}

/// One fetch, decode and execute: the program counter moves past the word it
/// points at, then the word is executed.
pub open spec fn step(s: Machine, rnd: u8) -> Result<Machine, EmuError> {
    if s.pc + 1 >= RAM_SIZE {
        Err(EmuError::OutOfBounds)
    } else {
        exec_op(s.with_pc((s.pc + 2) as u16), word_at(s.ram, s.pc as int), rnd)
    }
}

/// One timer tick: each nonzero timer goes down by one.
pub open spec fn timers_ticked(s: Machine) -> Machine {
    Machine {
        dt: if s.dt > 0 { (s.dt - 1) as u8 } else { 0 },
        st: if s.st > 0 { (s.st - 1) as u8 } else { 0 },
        ..s
    }
}

/// How a call that returns `res` and leaves the machine in `after` meets the
/// expected outcome `expect` from `before`: on success the new state is the
/// expected one; on failure the error is the expected one and nothing changed.
pub open spec fn meets(
    before: Machine,
    after: Machine,
    res: Result<(), EmuError>,
    expect: Result<Machine, EmuError>,
) -> bool {
    match expect {
        Ok(m) => res == Ok::<(), EmuError>(()) && after == m,
        Err(e) => res == Err::<(), EmuError>(e) && after == before,
    }
}

} // verus!
