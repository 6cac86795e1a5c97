use vstd::prelude::*;

use crate::clock::{duration_as_millis, duration_as_nanos, instant_elapsed, instant_now};
use crate::graphics::Drawable;
use crate::instructions::{inst_wf, Inst};
use crate::machine::{
    cleared, drw_bit, drw_row, drw_sprite, exec_pre, fetch_word, inst_deterministic,
    lemma_reachable_extend, lemma_reachable_refl, machine_wf, reachable, spec_drw, spec_execute,
    spec_step, spec_tick, Chip8Error, MachineSpec,
};

verus! {

/// Relies on rand::random: a byte drawn from the thread-local generator.
/// Nothing is promised of the value; the machine states what holds of every
/// outcome.
pub assume_specification<T>[ rand::random::<T> ]() -> (r: T)
    where
        rand::distributions::Standard: rand::distributions::Distribution<T>,
;

/// The built-in glyph table: 16 fixed-width bitmap glyphs of five bytes
/// each, one per hexadecimal digit, written to the base of memory at
/// initialization.
pub const HEX_SPRITES: [u8; 80] = [
    0xF0, 0x90, 0x90, 0x90, 0xF0,
    0x20, 0x60, 0x20, 0x20, 0x70,
    0xF0, 0x10, 0xF0, 0x80, 0xF0,
    0xF0, 0x10, 0xF0, 0x10, 0xF0,
    0x90, 0x90, 0xF0, 0x10, 0x10,
    0xF0, 0x80, 0xF0, 0x10, 0xF0,
    0xF0, 0x80, 0xF0, 0x90, 0xF0,
    0xF0, 0x10, 0x20, 0x40, 0x40,
    0xF0, 0x90, 0xF0, 0x90, 0xF0,
    0xF0, 0x90, 0xF0, 0x10, 0xF0,
    0xF0, 0x90, 0xF0, 0x90, 0x90,
    0xE0, 0x90, 0xE0, 0x90, 0xE0,
    0xF0, 0x80, 0x80, 0x80, 0xF0,
    0xE0, 0x90, 0x90, 0x90, 0xE0,
    0xF0, 0x80, 0xF0, 0x80, 0xF0,
    0xF0, 0x80, 0xF0, 0x80, 0x80,
];

/// Bytes per glyph in the built-in table.
pub const SPRITE_SIZE: u16 = 5;

/// Memory as it stands after initialization: the glyph table at the base,
/// zero everywhere else.
pub open spec fn boot_mem() -> Seq<u8> {
    Seq::new(
        4096,
        |j: int|
            if j < 80 {
                HEX_SPRITES@[j]
            } else {
                0u8
            },
    )
}

/// `mem` with the program image written starting at address 0x200.
pub open spec fn overlay_rom(mem: Seq<u8>, rom: Seq<u8>) -> Seq<u8> {
    mem.map(
        |j: int, b: u8|
            if 0x200 <= j < 0x200 + rom.len() {
                rom[j - 0x200]
            } else {
                b
            },
    )
}

/// The per-instruction time budget in nanoseconds for a frequency in
/// instructions per second; zero is the sentinel for an unthrottled run.
pub open spec fn spec_timeout(freq: usize) -> u128 {
    if freq == 0 {
        0u128
    } else {
        1_000_000_000u128 / (freq as u128)
    }
}

/// The register file: 16 general-purpose 8-bit registers (index 0xF doubles
/// as the flags register), the program counter, the index register, the
/// stack pointer, and the two countdown timers.
pub struct Registers {
    pub v: Vec<u8>,
    pub pc: u16,
    pub i: u16,
    pub sp: u8,
    pub dt: u8,
    pub st: u8,
}

impl Registers {
    /// All registers cleared.
    pub fn new() -> (r: Registers)
        ensures
            r.v@ == Seq::new(16, |j: int| 0u8),
            r.pc == 0,
            r.i == 0,
            r.sp == 0,
            r.dt == 0,
            r.st == 0,
    {
        let mut v: Vec<u8> = Vec::new();
        while v.len() < 16
            invariant
                v@.len() <= 16,
                forall|j: int| 0 <= j < v@.len() ==> v@[j] == 0u8,
            decreases 16 - v@.len(),
        {
            v.push(0);
        }
        assert(v@ =~= Seq::new(16, |j: int| 0u8));
        Registers { v, pc: 0, i: 0, sp: 0, dt: 0, st: 0 }
    }
}

/// The machine: memory, call stack, register file, pixel buffer, the
/// display/input capability, and the configured per-instruction time
/// budget. Created once per run and mutated in place.
pub struct Chip8<T: Drawable> {
    memory: Vec<u8>,
    stack: Vec<u16>,
    reg: Registers,
    gfx: T,
    vram: Vec<Vec<u8>>,
    clock_timeout_nanos: u128,
}

impl<T: Drawable> Chip8<T> {
    /// The mathematical view of the machine state. The capability and the
    /// time budget stand outside it: no instruction reads or writes them.
    pub closed spec fn machine(&self) -> MachineSpec {
        MachineSpec {
            mem: self.memory@,
            stack: self.stack@,
            v: self.reg.v@,
            pc: self.reg.pc,
            i: self.reg.i,
            sp: self.reg.sp,
            dt: self.reg.dt,
            st: self.reg.st,
            vram: Seq::new(self.vram@.len(), |r: int| self.vram@[r]@),
        }
    }

    /// The configured per-instruction time budget in nanoseconds.
    pub closed spec fn timeout_nanos(&self) -> u128 {
        self.clock_timeout_nanos
    }

    /// A structurally sound machine: the fixed array sizes, a rectangular
    /// non-empty pixel buffer, and a time budget of at most one second.
    pub open spec fn wf(&self) -> bool {
        &&& machine_wf(self.machine())
        &&& self.timeout_nanos() <= 1_000_000_000
    }

    /// Write the glyph table to the base of memory and point the program
    /// counter at the conventional program start.
    pub fn init(&mut self)
        requires
            old(self).machine().mem.len() == 4096,
        ensures
            final(self).machine() == (MachineSpec {
                mem: final(self).machine().mem,
                pc: 0x200u16,
                ..old(self).machine()
            }),
            forall|j: int|
                0 <= j < 80 ==> final(self).machine().mem[j] == HEX_SPRITES@[j],
            forall|j: int|
                80 <= j < 4096 ==> final(self).machine().mem[j] == old(self).machine().mem[j],
            final(self).machine().mem.len() == 4096,
            final(self).timeout_nanos() == old(self).timeout_nanos(),
    {
        let mut k: usize = 0;
        while k < 80
            invariant
                k <= 80,
                self.memory@.len() == 4096,
                forall|j: int| 0 <= j < k ==> self.memory@[j] == HEX_SPRITES@[j],
                forall|j: int| k <= j < 4096 ==> self.memory@[j] == old(self).memory@[j],
                self.stack == old(self).stack,
                self.reg == old(self).reg,
                self.vram == old(self).vram,
                self.clock_timeout_nanos == old(self).clock_timeout_nanos,
            decreases 80 - k,
        {
            self.memory[k] = HEX_SPRITES[k];
            k = k + 1;
        }
        self.reg.pc = 0x200;
    }

    /// A fresh machine: cleared registers and stack, the glyph table in low
    /// memory, the program counter at 0x200, an all-clear pixel buffer of
    /// exactly the capability's dimensions, and the time budget derived
    /// from the requested instruction frequency (zero meaning unthrottled).
    pub fn new(freq: usize, graphics: T) -> (c: Chip8<T>)
        ensures
            c.wf(),
            c.machine().vram.len() == graphics.spec_height(),
            c.machine().vram[0].len() == graphics.spec_width(),
            c.machine().mem == boot_mem(),
            c.machine().pc == 0x200,
            c.machine().i == 0,
            c.machine().sp == 0,
            c.machine().dt == 0,
            c.machine().st == 0,
            c.machine().v == Seq::new(16, |j: int| 0u8),
            c.machine().stack == Seq::new(16, |j: int| 0u16),
            forall|r: int, cc: int|
                0 <= r < c.machine().vram.len() && 0 <= cc < c.machine().vram[r].len()
                    ==> c.machine().vram[r][cc] == 0u8,
            c.timeout_nanos() == spec_timeout(freq),
    {
        let width = graphics.width();
        let height = graphics.height();

        let mut memory: Vec<u8> = Vec::new();
        while memory.len() < 4096
            invariant
                memory@.len() <= 4096,
                forall|j: int| 0 <= j < memory@.len() ==> memory@[j] == 0u8,
            decreases 4096 - memory@.len(),
        {
            memory.push(0);
        }

        let mut stack: Vec<u16> = Vec::new();
        while stack.len() < 16
            invariant
                stack@.len() <= 16,
                forall|j: int| 0 <= j < stack@.len() ==> stack@[j] == 0u16,
            decreases 16 - stack@.len(),
        {
            stack.push(0);
        }
        assert(stack@ =~= Seq::new(16, |j: int| 0u16));

        let mut vram: Vec<Vec<u8>> = Vec::new();
        while vram.len() < height
            invariant
                vram@.len() <= height,
                forall|r: int| 0 <= r < vram@.len() ==> (#[trigger] vram@[r])@.len() == width,
                forall|r: int, cc: int|
                    0 <= r < vram@.len() && 0 <= cc < width ==> vram@[r]@[cc] == 0u8,
            decreases height - vram@.len(),
        {
            let mut row: Vec<u8> = Vec::new();
            while row.len() < width
                invariant
                    row@.len() <= width,
                    forall|cc: int| 0 <= cc < row@.len() ==> row@[cc] == 0u8,
                decreases width - row@.len(),
            {
                row.push(0);
            }
            vram.push(row);
        }

        let clock_timeout_nanos: u128 = if freq == 0 {
            0
        } else {
            1_000_000_000u128 / (freq as u128)
        };

        let mut c8 = Chip8 {
            memory,
            stack,
            reg: Registers::new(),
            gfx: graphics,
            vram,
            clock_timeout_nanos,
        };
        c8.init();
        assert(c8.machine().mem =~= boot_mem());
        c8
    }

    /// A fresh machine with a program image already loaded.
    pub fn with_rom(freq: usize, graphics: T, rom: &[u8]) -> (c: Chip8<T>)
        requires
            rom@.len() <= 4096 - 0x200,
        ensures
            c.wf(),
            c.machine().vram.len() == graphics.spec_height(),
            c.machine().vram[0].len() == graphics.spec_width(),
            c.machine().mem == overlay_rom(boot_mem(), rom@),
            c.machine().pc == 0x200,
            c.machine().i == 0,
            c.machine().sp == 0,
            c.machine().dt == 0,
            c.machine().st == 0,
            c.machine().v == Seq::new(16, |j: int| 0u8),
            c.machine().stack == Seq::new(16, |j: int| 0u16),
            forall|r: int, cc: int|
                0 <= r < c.machine().vram.len() && 0 <= cc < c.machine().vram[r].len()
                    ==> c.machine().vram[r][cc] == 0u8,
            c.timeout_nanos() == spec_timeout(freq),
    {
        let mut c8 = Chip8::new(freq, graphics);
        c8.load_rom(rom);
        c8
    }

    /// Write a program image into memory starting at address 0x200. The
    /// image must fit below the end of memory.
    pub fn load_rom(&mut self, rom: &[u8])
        requires
            old(self).machine().mem.len() == 4096,
            rom@.len() <= 4096 - 0x200,
        ensures
            final(self).machine() == (MachineSpec {
                mem: crate::chip8::overlay_rom(old(self).machine().mem, rom@),
                ..old(self).machine()
            }),
            final(self).timeout_nanos() == old(self).timeout_nanos(),
    {
        let mut k: usize = 0;
        while k < rom.len()
            invariant
                k <= rom@.len(),
                rom@.len() <= 4096 - 0x200,
                self.memory@.len() == 4096,
                forall|j: int|
                    0x200 <= j < 0x200 + k ==> self.memory@[j] == rom@[j - 0x200],
                forall|j: int|
                    0 <= j < 4096 && !(0x200 <= j < 0x200 + k)
                        ==> self.memory@[j] == old(self).memory@[j],
                self.stack == old(self).stack,
                self.reg == old(self).reg,
                self.vram == old(self).vram,
                self.clock_timeout_nanos == old(self).clock_timeout_nanos,
            decreases rom@.len() - k,
        {
            self.memory[0x200 + k] = rom[k];
            k = k + 1;
        }
        assert(self.machine().mem =~= crate::chip8::overlay_rom(old(self).machine().mem, rom@));
        assert(self.machine() =~~= (MachineSpec {
            mem: crate::chip8::overlay_rom(old(self).machine().mem, rom@),
            ..old(self).machine()
        }));
    }

    /// Read the 16-bit word at the program counter, high byte first, and
    /// advance the program counter past it.
    pub fn fetch(&mut self) -> (w: u16)
        requires
            old(self).wf(),
            old(self).machine().pc + 1 < 4096,
        ensures
            final(self).wf(),
            w == fetch_word(old(self).machine()),
            final(self).machine() == (MachineSpec {
                pc: (old(self).machine().pc + 2) as u16,
                ..old(self).machine()
            }),
            final(self).timeout_nanos() == old(self).timeout_nanos(),
    {
        let pc = self.reg.pc as usize;
        self.reg.pc = self.reg.pc + 2;
        ((self.memory[pc] as u16) << 8) | (self.memory[pc + 1] as u16)
    }

    /// One 60 Hz timer tick: both timers count down toward zero, saturating
    /// there; the result reports whether sound should now be running, that
    /// is, whether the sound timer is still nonzero.
    pub fn tick_timers(&mut self) -> (sound_on: bool)
        requires
            old(self).wf(),
        ensures
            final(self).wf(),
            final(self).machine() == spec_tick(old(self).machine()),
            sound_on == (final(self).machine().st != 0),
            final(self).timeout_nanos() == old(self).timeout_nanos(),
    {
        self.reg.dt = if self.reg.dt > 0 {
            self.reg.dt - 1
        } else {
            0
        };
        self.reg.st = if self.reg.st > 0 {
            self.reg.st - 1
        } else {
            0
        };
        self.reg.st != 0
    }

    /// The draw instruction: blit an `n`-row sprite read from memory at the
    /// index register to the coordinates held in the two named registers,
    /// with toroidal wraparound, exclusive-or pixel update, and collision
    /// reporting in the flags register.
    pub fn drw(&mut self, reg1: u8, reg2: u8, n: u8)
        requires
            old(self).wf(),
            reg1 < 16,
            reg2 < 16,
            n < 16,
            old(self).machine().i + n <= 4096,
        ensures
            final(self).wf(),
            final(self).machine() == spec_drw(old(self).machine(), reg1, reg2, n),
            final(self).timeout_nanos() == old(self).timeout_nanos(),
    {
        let ghost m0 = old(self).machine();
        let x = self.reg.v[reg1 as usize];
        let y = self.reg.v[reg2 as usize];

        let mut sprite: Vec<u8> = Vec::new();
        let mut k: usize = 0;
        while k < n as usize
            invariant
                old(self).wf(),
                self == old(self),
                k <= n,
                n < 16,
                reg1 < 16,
                reg2 < 16,
                m0 == old(self).machine(),
                m0.i + n <= 4096,
                sprite@.len() == k,
                forall|j: int| 0 <= j < k ==> sprite@[j] == m0.mem[m0.i + j],
            decreases n as int - k,
        {
            sprite.push(self.memory[self.reg.i as usize + k]);
            k = k + 1;
        }

        self.reg.v[0xF] = 0;
        proof {
            assert forall|q: int|
                0 <= q < self.vram@.len() implies (#[trigger] self.vram@[q])@.len()
                == self.vram@[0]@.len() by {
                assert(self.machine().vram[q].len() == self.machine().vram[0].len());
            }
        }
        let rows_n = self.vram.len();
        let cols_n = self.vram[0].len();

        let mut row: usize = 0;
        while row < n as usize
            invariant
                row <= n,
                n < 16,
                machine_wf(m0),
                m0.i + n <= 4096,
                x == m0.v[reg1 as int],
                y == m0.v[reg2 as int],
                sprite@.len() == n,
                forall|j: int| 0 <= j < n ==> sprite@[j] == m0.mem[m0.i + j],
                rows_n == m0.vram.len(),
                cols_n == m0.vram[0].len(),
                self.memory@ == m0.mem,
                self.stack@ == m0.stack,
                self.reg.pc == m0.pc,
                self.reg.i == m0.i,
                self.reg.sp == m0.sp,
                self.reg.dt == m0.dt,
                self.reg.st == m0.st,
                self.reg.v@.len() == 16,
                self.vram@.len() == rows_n,
                forall|q: int| 0 <= q < rows_n ==> (#[trigger] self.vram@[q])@.len() == cols_n,
                ({
                    let st = drw_sprite(m0.vram, 0u8, m0.mem, m0.i, x, y, row as int);
                    self.machine().vram == st.0 && self.reg.v@ == m0.v.update(0xF, st.1)
                }),
                self.clock_timeout_nanos == old(self).clock_timeout_nanos,
            decreases n as int - row,
        {
            let byte = sprite[row];
            let ghost pre = drw_sprite(m0.vram, 0u8, m0.mem, m0.i, x, y, row as int);

            let mut col: usize = 0;
            while col < 8
                invariant
                    col <= 8,
                    row < n,
                    n < 16,
                    machine_wf(m0),
                    byte == m0.mem[m0.i + row],
                    rows_n == m0.vram.len(),
                    cols_n == m0.vram[0].len(),
                    self.memory@ == m0.mem,
                    self.stack@ == m0.stack,
                    self.reg.pc == m0.pc,
                    self.reg.i == m0.i,
                    self.reg.sp == m0.sp,
                    self.reg.dt == m0.dt,
                    self.reg.st == m0.st,
                    self.reg.v@.len() == 16,
                    self.vram@.len() == rows_n,
                    forall|q: int| 0 <= q < rows_n ==> (#[trigger] self.vram@[q])@.len() == cols_n,
                    pre == drw_sprite(m0.vram, 0u8, m0.mem, m0.i, x, y, row as int),
                    ({
                        let st = drw_row(pre.0, pre.1, byte, x, y, row as int, col as int);
                        self.machine().vram == st.0 && self.reg.v@ == m0.v.update(0xF, st.1)
                    }),
                    self.clock_timeout_nanos == old(self).clock_timeout_nanos,
                decreases 8 - col,
            {
                let ghost st = drw_row(pre.0, pre.1, byte, x, y, row as int, col as int);
                let cy = (y as usize + row) % rows_n;
                let cx = (x as usize + col) % cols_n;
                let color: u8 = if (byte & (0x80u8 >> (col as u8))) > 0 {
                    1
                } else {
                    0
                };
                let p = self.vram[cy][cx];
                let hit: u8 = if p != 0 && color != 0 {
                    1
                } else {
                    0
                };
                proof {
                    assert(st.0.len() == rows_n);
                    assert(cy as int == (y + row as int) % (st.0.len() as int));
                    assert(st.0[cy as int].len() == cols_n);
                    assert(cx as int == (x + col as int) % (st.0[0].len() as int));
                    assert(color == crate::machine::sprite_pixel(byte, col as int));
                    assert(p == st.0[cy as int][cx as int]);
                }
                self.reg.v[0xF] = self.reg.v[0xF] | hit;
                self.vram[cy][cx] = p ^ color;
                proof {
                    let stepped = drw_bit(st.0, st.1, byte, x, y, row as int, col as int);
                    assert(drw_row(pre.0, pre.1, byte, x, y, row as int, col as int + 1) == stepped);
                    assert(self.machine().vram =~~= stepped.0);
                    assert(self.reg.v@ =~= m0.v.update(0xF, stepped.1));
                }
                col = col + 1;
            }

            proof {
                assert(drw_sprite(m0.vram, 0u8, m0.mem, m0.i, x, y, row as int + 1) == drw_row(
                    pre.0,
                    pre.1,
                    m0.mem[m0.i + row],
                    x,
                    y,
                    row as int,
                    8,
                ));
            }
            row = row + 1;
        }

        proof {
            assert(self.machine() =~~= spec_drw(m0, reg1, reg2, n));
        }
    }

    /// Apply one decoded instruction to the machine state, consulting the
    /// capability for the key-dependent instructions and the random source
    /// for the masked-random instruction. The new state is one of the
    /// states `spec_execute` allows for some outcome of those sources.
    pub fn execute(&mut self, inst: Inst)
        requires
            old(self).wf(),
            inst_wf(inst),
            exec_pre(old(self).machine(), inst),
        ensures
            final(self).wf(),
            exists|rnd: u8, pressed: bool, key: u8|
                final(self).machine() == spec_execute(old(self).machine(), inst, rnd, pressed, key),
            inst_deterministic(inst) ==> final(self).machine() == spec_execute(
                old(self).machine(),
                inst,
                0u8,
                false,
                0u8,
            ),
            final(self).timeout_nanos() == old(self).timeout_nanos(),
    {
        let ghost m0 = old(self).machine();
        match inst {
            Inst::SYS(_addr) => {
                proof {
                    assert(self.machine() =~~= spec_execute(m0, inst, 0u8, false, 0u8));
                }
            }
            Inst::CLS => {
                proof {
                    assert forall|q: int|
                        0 <= q < self.vram@.len() implies (#[trigger] self.vram@[q])@.len()
                        == self.vram@[0]@.len() by {
                        assert(self.machine().vram[q].len() == self.machine().vram[0].len());
                    }
                }
                let rows_n = self.vram.len();
                let cols_n = self.vram[0].len();
                let mut r: usize = 0;
                while r < rows_n
                    invariant
                        r <= rows_n,
                        machine_wf(m0),
                        rows_n == m0.vram.len(),
                        cols_n == m0.vram[0].len(),
                        self.memory@ == m0.mem,
                        self.stack@ == m0.stack,
                        self.reg == old(self).reg,
                        self.vram@.len() == rows_n,
                        forall|q: int| 0 <= q < rows_n ==> (#[trigger] self.vram@[q])@.len() == cols_n,
                        forall|q: int, c: int|
                            0 <= q < r && 0 <= c < cols_n ==> self.vram@[q]@[c] == 0u8,
                        forall|q: int| r <= q < rows_n ==> self.vram@[q]@ == m0.vram[q],
                        self.clock_timeout_nanos == old(self).clock_timeout_nanos,
                    decreases rows_n - r,
                {
                    let mut c: usize = 0;
                    while c < cols_n
                        invariant
                            c <= cols_n,
                            r < rows_n,
                            machine_wf(m0),
                            rows_n == m0.vram.len(),
                            cols_n == m0.vram[0].len(),
                            self.memory@ == m0.mem,
                            self.stack@ == m0.stack,
                            self.reg == old(self).reg,
                            self.vram@.len() == rows_n,
                            forall|q: int| 0 <= q < rows_n ==> (#[trigger] self.vram@[q])@.len() == cols_n,
                            forall|q: int, cc: int|
                                0 <= q < r && 0 <= cc < cols_n ==> self.vram@[q]@[cc] == 0u8,
                            forall|q: int| r < q < rows_n ==> self.vram@[q]@ == m0.vram[q],
                            forall|cc: int| 0 <= cc < c ==> self.vram@[r as int]@[cc] == 0u8,
                            forall|cc: int| c <= cc < cols_n ==> self.vram@[r as int]@[cc] == m0.vram[r as int][cc],
                            self.clock_timeout_nanos == old(self).clock_timeout_nanos,
                        decreases cols_n - c,
                    {
                        self.vram[r][c] = 0;
                        c = c + 1;
                    }
                    r = r + 1;
                }
                proof {
                    assert(self.machine().vram =~~= cleared(m0.vram));
                    assert(self.machine() =~~= spec_execute(m0, inst, 0u8, false, 0u8));
                }
            }
            Inst::RET => {
                self.reg.sp = self.reg.sp - 1;
                self.reg.pc = self.stack[self.reg.sp as usize];
                proof {
                    assert(self.machine() =~~= spec_execute(m0, inst, 0u8, false, 0u8));
                }
            }
            Inst::JP(addr) => {
                self.reg.pc = addr;
                proof {
                    assert(self.machine() =~~= spec_execute(m0, inst, 0u8, false, 0u8));
                }
            }
            Inst::CALL(addr) => {
                self.stack[self.reg.sp as usize] = self.reg.pc;
                self.reg.sp = self.reg.sp + 1;
                self.reg.pc = addr;
                proof {
                    assert(self.machine() =~~= spec_execute(m0, inst, 0u8, false, 0u8));
                }
            }
            Inst::SE(x, k) => {
                if self.reg.v[x as usize] == k {
                    self.reg.pc = self.reg.pc + 2;
                }
                proof {
                    assert(self.machine() =~~= spec_execute(m0, inst, 0u8, false, 0u8));
                }
            }
            Inst::SNE(x, k) => {
                if self.reg.v[x as usize] != k {
                    self.reg.pc = self.reg.pc + 2;
                }
                proof {
                    assert(self.machine() =~~= spec_execute(m0, inst, 0u8, false, 0u8));
                }
            }
            Inst::SEV(x, y) => {
                if self.reg.v[x as usize] == self.reg.v[y as usize] {
                    self.reg.pc = self.reg.pc + 2;
                }
                proof {
                    assert(self.machine() =~~= spec_execute(m0, inst, 0u8, false, 0u8));
                }
            }
            Inst::LD(x, k) => {
                self.reg.v[x as usize] = k;
                proof {
                    assert(self.machine() =~~= spec_execute(m0, inst, 0u8, false, 0u8));
                }
            }
            Inst::ADD(x, k) => {
                let sum: u16 = self.reg.v[x as usize] as u16 + k as u16;
                self.reg.v[x as usize] = (sum % 256) as u8;
                proof {
                    assert(self.machine() =~~= spec_execute(m0, inst, 0u8, false, 0u8));
                }
            }
            Inst::LDV(x, y) => {
                self.reg.v[x as usize] = self.reg.v[y as usize];
                proof {
                    assert(self.machine() =~~= spec_execute(m0, inst, 0u8, false, 0u8));
                }
            }
            Inst::OR(x, y) => {
                self.reg.v[x as usize] = self.reg.v[x as usize] | self.reg.v[y as usize];
                proof {
                    assert(self.machine() =~~= spec_execute(m0, inst, 0u8, false, 0u8));
                }
            }
            Inst::AND(x, y) => {
                self.reg.v[x as usize] = self.reg.v[x as usize] & self.reg.v[y as usize];
                proof {
                    assert(self.machine() =~~= spec_execute(m0, inst, 0u8, false, 0u8));
                }
            }
            Inst::XOR(x, y) => {
                self.reg.v[x as usize] = self.reg.v[x as usize] ^ self.reg.v[y as usize];
                proof {
                    assert(self.machine() =~~= spec_execute(m0, inst, 0u8, false, 0u8));
                }
            }
            Inst::ADDV(x, y) => {
                let sum: u16 = self.reg.v[x as usize] as u16 + self.reg.v[y as usize] as u16;
                self.reg.v[x as usize] = (sum % 256) as u8;
                self.reg.v[0xF] = if sum > 255 {
                    1
                } else {
                    0
                };
                proof {
                    assert(self.machine() =~~= spec_execute(m0, inst, 0u8, false, 0u8));
                }
            }
            Inst::SUB(x, y) => {
                let val1 = self.reg.v[x as usize];
                let val2 = self.reg.v[y as usize];
                self.reg.v[0xF] = if val1 > val2 {
                    1
                } else {
                    0
                };
                self.reg.v[x as usize] = ((val1 as u16 + 256 - val2 as u16) % 256) as u8;
                proof {
                    assert(self.machine() =~~= spec_execute(m0, inst, 0u8, false, 0u8));
                }
            }
            Inst::SHR(x, _y) => {
                self.reg.v[0xF] = self.reg.v[x as usize] & 0x1;
                self.reg.v[x as usize] = self.reg.v[x as usize] >> 1u8;
                proof {
                    assert(self.machine() =~~= spec_execute(m0, inst, 0u8, false, 0u8));
                }
            }
            Inst::SUBN(x, y) => {
                let val1 = self.reg.v[x as usize];
                let val2 = self.reg.v[y as usize];
                self.reg.v[0xF] = if val2 > val1 {
                    1
                } else {
                    0
                };
                self.reg.v[x as usize] = ((val2 as u16 + 256 - val1 as u16) % 256) as u8;
                proof {
                    assert(self.machine() =~~= spec_execute(m0, inst, 0u8, false, 0u8));
                }
            }
            Inst::SHL(x, _y) => {
                self.reg.v[0xF] = self.reg.v[x as usize] & 0x80;
                self.reg.v[x as usize] = self.reg.v[x as usize] << 1u8;
                proof {
                    assert(self.machine() =~~= spec_execute(m0, inst, 0u8, false, 0u8));
                }
            }
            Inst::SNEV(x, y) => {
                if self.reg.v[x as usize] != self.reg.v[y as usize] {
                    self.reg.pc = self.reg.pc + 2;
                }
                proof {
                    assert(self.machine() =~~= spec_execute(m0, inst, 0u8, false, 0u8));
                }
            }
            Inst::LDI(addr) => {
                self.reg.i = addr;
                proof {
                    assert(self.machine() =~~= spec_execute(m0, inst, 0u8, false, 0u8));
                }
            }
            Inst::JPV(addr) => {
                self.reg.pc = addr + self.reg.v[0] as u16;
                proof {
                    assert(self.machine() =~~= spec_execute(m0, inst, 0u8, false, 0u8));
                }
            }
            Inst::RND(x, k) => {
                let rb: u8 = rand::random();
                self.reg.v[x as usize] = rb & k;
                proof {
                    assert(self.machine() =~~= spec_execute(m0, inst, rb, false, 0u8));
                }
            }
            Inst::DRW(x, y, nib) => {
                self.drw(x, y, nib);
                proof {
                    assert(self.machine() =~~= spec_execute(m0, inst, 0u8, false, 0u8));
                }
            }
            Inst::SKP(x) => {
                let pressed = self.gfx.is_key_pressed(self.reg.v[x as usize]);
                if pressed {
                    self.reg.pc = self.reg.pc + 2;
                }
                proof {
                    assert(self.machine() =~~= spec_execute(m0, inst, 0u8, pressed, 0u8));
                }
            }
            Inst::SKNP(x) => {
                let pressed = self.gfx.is_key_pressed(self.reg.v[x as usize]);
                if !pressed {
                    self.reg.pc = self.reg.pc + 2;
                }
                proof {
                    assert(self.machine() =~~= spec_execute(m0, inst, 0u8, pressed, 0u8));
                }
            }
            Inst::LDVDT(x) => {
                self.reg.v[x as usize] = self.reg.dt;
                proof {
                    assert(self.machine() =~~= spec_execute(m0, inst, 0u8, false, 0u8));
                }
            }
            Inst::LDVKEY(x) => {
                let kv = self.gfx.wait_for_key();
                self.reg.v[x as usize] = kv;
                proof {
                    assert(self.machine() =~~= spec_execute(m0, inst, 0u8, false, kv));
                }
            }
            Inst::LDDTV(x) => {
                self.reg.dt = self.reg.v[x as usize];
                proof {
                    assert(self.machine() =~~= spec_execute(m0, inst, 0u8, false, 0u8));
                }
            }
            Inst::LDSTV(x) => {
                self.reg.st = self.reg.v[x as usize];
                proof {
                    assert(self.machine() =~~= spec_execute(m0, inst, 0u8, false, 0u8));
                }
            }
            Inst::ADDIV(x) => {
                self.reg.i = self.reg.i + self.reg.v[x as usize] as u16;
                proof {
                    assert(self.machine() =~~= spec_execute(m0, inst, 0u8, false, 0u8));
                }
            }
            Inst::LDFV(x) => {
                let vx = self.reg.v[x as usize];
                proof {
                    assert(vx & 0xF < 16) by (bit_vector);
                }
                let low = vx & 0xF;
                self.reg.i = (low as u16) * SPRITE_SIZE;
                proof {
                    assert(self.machine() =~~= spec_execute(m0, inst, 0u8, false, 0u8));
                }
            }
            Inst::LDBV(x) => {
                let val = self.reg.v[x as usize];
                let base = self.reg.i as usize;
                self.memory[base] = val / 100;
                self.memory[base + 1] = (val / 10) % 10;
                self.memory[base + 2] = val % 10;
                proof {
                    assert(self.machine() =~~= spec_execute(m0, inst, 0u8, false, 0u8));
                }
            }
            Inst::LDIV(x) => {
                let base = self.reg.i as usize;
                let mut k: usize = 0;
                while k <= x as usize
                    invariant
                        k <= x + 1,
                        x < 16,
                        machine_wf(m0),
                        base == m0.i,
                        m0.i + x < 4096,
                        self.memory@.len() == 4096,
                        forall|j: int| base <= j < base + k ==> self.memory@[j] == m0.v[j - base],
                        forall|j: int|
                            0 <= j < 4096 && !(base <= j < base + k) ==> self.memory@[j]
                                == m0.mem[j],
                        self.stack@ == m0.stack,
                        self.reg.v@ == m0.v,
                        self.reg.pc == m0.pc,
                        self.reg.i == m0.i,
                        self.reg.sp == m0.sp,
                        self.reg.dt == m0.dt,
                        self.reg.st == m0.st,
                        self.vram == old(self).vram,
                        self.clock_timeout_nanos == old(self).clock_timeout_nanos,
                    decreases x as int + 1 - k,
                {
                    self.memory[base + k] = self.reg.v[k];
                    k = k + 1;
                }
                proof {
                    assert(self.machine().mem =~= spec_execute(m0, inst, 0u8, false, 0u8).mem);
                    assert(self.machine() =~~= spec_execute(m0, inst, 0u8, false, 0u8));
                }
            }
            Inst::LDVI(x) => {
                let base = self.reg.i as usize;
                let mut k: usize = 0;
                while k <= x as usize
                    invariant
                        k <= x + 1,
                        x < 16,
                        machine_wf(m0),
                        base == m0.i,
                        m0.i + x < 4096,
                        self.memory@ == m0.mem,
                        self.reg.v@.len() == 16,
                        forall|j: int| 0 <= j < k ==> self.reg.v@[j] == m0.mem[base + j],
                        forall|j: int| k <= j < 16 ==> self.reg.v@[j] == m0.v[j],
                        self.reg.pc == m0.pc,
                        self.reg.i == m0.i,
                        self.reg.sp == m0.sp,
                        self.reg.dt == m0.dt,
                        self.reg.st == m0.st,
                        self.stack@ == m0.stack,
                        self.vram == old(self).vram,
                        self.clock_timeout_nanos == old(self).clock_timeout_nanos,
                    decreases x as int + 1 - k,
                {
                    self.reg.v[k] = self.memory[base + k];
                    k = k + 1;
                }
                proof {
                    assert(self.machine().v =~= spec_execute(m0, inst, 0u8, false, 0u8).v);
                    assert(self.machine() =~~= spec_execute(m0, inst, 0u8, false, 0u8));
                }
            }
        }
    }

    /// One fetch-decode-execute cycle. Every condition the executor needs
    /// is checked first: a violated one reports its fatal error and the
    /// cycle performs no instruction.
    pub fn step(&mut self) -> (r: Result<(), Chip8Error>)
        requires
            old(self).wf(),
        ensures
            final(self).wf(),
            final(self).timeout_nanos() == old(self).timeout_nanos(),
            exists|rnd: u8, pressed: bool, key: u8|
                (r, final(self).machine()) == spec_step(old(self).machine(), rnd, pressed, key),
    {
        let ghost m0 = old(self).machine();
        if self.reg.pc >= 4095 {
            proof {
                assert((Err::<(), Chip8Error>(Chip8Error::PcOutOfRange(m0.pc)), self.machine())
                    == spec_step(m0, 0u8, false, 0u8));
            }
            return Err(Chip8Error::PcOutOfRange(self.reg.pc));
        }
        let opcode = self.fetch();
        let inst = match Inst::decode(opcode) {
            Some(i) => i,
            None => {
                proof {
                    assert((Err::<(), Chip8Error>(Chip8Error::InvalidOpcode(opcode)),
                        self.machine()) == spec_step(m0, 0u8, false, 0u8));
                }
                return Err(Chip8Error::InvalidOpcode(opcode));
            },
        };
        let guard: Option<Chip8Error> = match inst {
            Inst::RET => if self.reg.sp < 1 {
                Some(Chip8Error::StackUnderflow)
            } else {
                None
            },
            Inst::CALL(_) => if self.reg.sp >= 16 {
                Some(Chip8Error::StackOverflow)
            } else {
                None
            },
            Inst::DRW(_, _, nib) => if self.reg.i as u32 + nib as u32 > 4096 {
                Some(Chip8Error::MemoryOutOfRange)
            } else {
                None
            },
            Inst::ADDIV(x) => if self.reg.i as u32 + self.reg.v[x as usize] as u32 > 0xFFFF {
                Some(Chip8Error::IndexOverflow)
            } else {
                None
            },
            Inst::LDBV(_) => if self.reg.i as u32 + 2 >= 4096 {
                Some(Chip8Error::MemoryOutOfRange)
            } else {
                None
            },
            Inst::LDIV(x) => if self.reg.i as u32 + x as u32 >= 4096 {
                Some(Chip8Error::MemoryOutOfRange)
            } else {
                None
            },
            Inst::LDVI(x) => if self.reg.i as u32 + x as u32 >= 4096 {
                Some(Chip8Error::MemoryOutOfRange)
            } else {
                None
            },
            _ => None,
        };
        if let Some(e) = guard {
            proof {
                assert((Err::<(), Chip8Error>(e), self.machine()) == spec_step(m0, 0u8, false, 0u8));
            }
            return Err(e);
        }
        let ghost m2 = self.machine();
        proof {
            assert(exec_pre(m2, inst));
        }
        self.execute(inst);
        proof {
            let (a, b, c): (u8, bool, u8) = choose|a: u8, b: bool, c: u8|
                self.machine() == spec_execute(m2, inst, a, b, c);
            assert((Ok::<(), Chip8Error>(()), self.machine()) == spec_step(m0, a, b, c));
        }
        Ok(())
    }

    /// The real-time scheduling loop: until the capability reports a close
    /// request, render and service events while the per-instruction time
    /// budget lasts, tick the timers at their fixed 60 Hz wall-clock
    /// cadence with sound gated by the sound timer, and then run exactly
    /// one instruction cycle. A fatal cycle error ends the run and is
    /// reported; an orderly close runs the capability's finalize hook.
    /// Whatever the outside world answers, the final machine state lies on
    /// a chain of timer ticks and instruction cycles out of the initial
    /// one: the run corrupts nothing.
    /// Every loop must come with a termination measure, so both loops carry
    /// an iteration budget far beyond what any real run reaches; an
    /// exhausted budget ends the loop as a close request would.
    pub fn run(&mut self) -> (r: Result<(), Chip8Error>)
        requires
            old(self).wf(),
        ensures
            final(self).wf(),
            final(self).timeout_nanos() == old(self).timeout_nanos(),
            reachable(old(self).machine(), final(self).machine()),
    {
        proof {
            lemma_reachable_refl(self.machine());
        }
        self.gfx.init();
        let mut timers = instant_now();
        let mut clock = instant_now();
        let mut cycle_budget: u64 = u64::MAX;

        while cycle_budget > 0 && !self.gfx.should_close()
            invariant
                self.wf(),
                self.timeout_nanos() == old(self).timeout_nanos(),
                reachable(old(self).machine(), self.machine()),
            decreases cycle_budget,
        {
            cycle_budget = cycle_budget - 1;
            let mut poll_budget: u64 = u64::MAX;
            loop
                invariant
                    self.wf(),
                    self.timeout_nanos() == old(self).timeout_nanos(),
                    reachable(old(self).machine(), self.machine()),
                decreases poll_budget,
            {
                if poll_budget == 0 {
                    break;
                }
                poll_budget = poll_budget - 1;
                let gone = duration_as_nanos(&instant_elapsed(&clock));
                let remaining_nanos: u128 = if self.clock_timeout_nanos >= gone {
                    self.clock_timeout_nanos - gone
                } else {
                    0
                };
                let remaining_millis: u128 = remaining_nanos / 1_000_000;
                assert(remaining_millis <= 1000);
                self.gfx.update(remaining_millis as u32);
                self.gfx.draw_screen(&self.vram);

                if duration_as_millis(&instant_elapsed(&timers)) >= 1000 / 60 {
                    let ghost before_tick = self.machine();
                    let sound_on = self.tick_timers();
                    proof {
                        lemma_reachable_extend(
                            old(self).machine(),
                            before_tick,
                            self.machine(),
                        );
                    }
                    timers = instant_now();
                    if sound_on {
                        self.gfx.sound_resume();
                    } else {
                        self.gfx.sound_pause();
                    }
                }

                if duration_as_nanos(&instant_elapsed(&clock)) >= self.clock_timeout_nanos {
                    break;
                }
            }
            clock = instant_now();

            let ghost before_step = self.machine();
            let stepped = self.step();
            proof {
                let (a, b, c): (u8, bool, u8) = choose|a: u8, b: bool, c: u8|
                    (stepped, self.machine()) == spec_step(before_step, a, b, c);
                assert(self.machine() == spec_step(before_step, a, b, c).1);
                lemma_reachable_extend(old(self).machine(), before_step, self.machine());
            }
            if let Err(e) = stepped {
                return Err(e);
            }
        }
        self.gfx.finalize();
        Ok(())
    }

    /// One general-purpose register.
    pub fn reg_v(&self, idx: u8) -> (r: u8)
        requires
            self.wf(),
            idx < 16,
        ensures
            r == self.machine().v[idx as int],
    {
        self.reg.v[idx as usize]
    }

    /// The program counter.
    pub fn pc(&self) -> (r: u16)
        ensures
            r == self.machine().pc,
    {
        self.reg.pc
    }

    /// The index register.
    pub fn index_reg(&self) -> (r: u16)
        ensures
            r == self.machine().i,
    {
        self.reg.i
    }

    /// The stack pointer.
    pub fn sp(&self) -> (r: u8)
        ensures
            r == self.machine().sp,
    {
        self.reg.sp
    }

    /// The delay timer.
    pub fn delay_timer(&self) -> (r: u8)
        ensures
            r == self.machine().dt,
    {
        self.reg.dt
    }

    /// The sound timer.
    pub fn sound_timer(&self) -> (r: u8)
        ensures
            r == self.machine().st,
    {
        self.reg.st
    }

    /// One memory cell.
    pub fn mem_byte(&self, addr: u16) -> (r: u8)
        requires
            self.wf(),
            addr < 4096,
        ensures
            r == self.machine().mem[addr as int],
    {
        self.memory[addr as usize]
    }

    /// One call-stack slot.
    pub fn stack_at(&self, slot: u8) -> (r: u16)
        requires
            self.wf(),
            slot < 16,
        ensures
            r == self.machine().stack[slot as int],
    {
        self.stack[slot as usize]
    }

    /// Number of pixel rows.
    pub fn screen_rows(&self) -> (r: usize)
        requires
            self.wf(),
        ensures
            r == self.machine().vram.len(),
    {
        self.vram.len()
    }

    /// Number of pixel columns.
    pub fn screen_cols(&self) -> (r: usize)
        requires
            self.wf(),
        ensures
            r == self.machine().vram[0].len(),
    {
        self.vram[0].len()
    }

    /// One pixel of the buffer: nonzero means lit.
    pub fn pixel(&self, row: usize, col: usize) -> (r: u8)
        requires
            self.wf(),
            row < self.machine().vram.len(),
            col < self.machine().vram[0].len(),
        ensures
            r == self.machine().vram[row as int][col as int],
    {
        proof {
            assert(self.machine().vram[row as int].len() == self.machine().vram[0].len());
        }
        self.vram[row][col]
    }
}

} // verus!
