use vstd::prelude::*;

use crate::instructions::Inst;

verus! {

/// The mathematical model of the machine state: 4096 memory cells, a
/// 16-slot call stack, 16 general-purpose registers, the program counter,
/// the index register, the stack pointer, the two countdown timers, and the
/// pixel buffer as a grid of rows.
#[verifier::ext_equal]
pub ghost struct MachineSpec {
    pub mem: Seq<u8>,
    pub stack: Seq<u16>,
    pub v: Seq<u8>,
    pub pc: u16,
    pub i: u16,
    pub sp: u8,
    pub dt: u8,
    pub st: u8,
    pub vram: Seq<Seq<u8>>,
}

/// Why a fetch-decode-execute cycle refused to run. Every variant is fatal:
/// the run that meets one stops and reports it. The stack and memory checks
/// harden conditions the historical machine left undefined.
#[derive(Debug, Clone, Copy, PartialEq, Eq, Structural)]
pub enum Chip8Error {
    /// The fetched word matches no defined encoding; carries the word.
    InvalidOpcode(u16),
    /// The program counter points past addressable memory; carries it.
    PcOutOfRange(u16),
    /// A return was executed with an empty call stack.
    StackUnderflow,
    /// A call was executed with all sixteen stack slots full.
    StackOverflow,
    /// A memory-block operation runs past address 0xFFF.
    MemoryOutOfRange,
    /// An add-to-index would carry the index register past 16 bits.
    IndexOverflow,
}

/// Number of pixel rows of the buffer.
pub open spec fn rows(m: MachineSpec) -> int {
    m.vram.len() as int
}

/// Number of pixel columns of the buffer.
pub open spec fn cols(m: MachineSpec) -> int {
    m.vram[0].len() as int
}

/// Structural well-formedness: the fixed sizes of memory, stack and register
/// file, and a rectangular, non-empty pixel buffer.
pub open spec fn machine_wf(m: MachineSpec) -> bool {
    &&& m.mem.len() == 4096
    &&& m.stack.len() == 16
    &&& m.v.len() == 16
    &&& m.sp <= 16
    &&& m.vram.len() > 0
    &&& m.vram[0].len() > 0
    &&& forall|r: int|
        0 <= r < m.vram.len() ==> (#[trigger] m.vram[r]).len() == m.vram[0].len()
}

/// The 16-bit word fetched at the program counter: high byte first.
pub open spec fn fetch_word(m: MachineSpec) -> u16 {
    ((m.mem[m.pc as int] as u16) << 8) | (m.mem[m.pc as int + 1] as u16)
}

/// The pixel value a sprite byte contributes at a column: bit 7 is the
/// leftmost column.
pub open spec fn sprite_pixel(b: u8, col: int) -> u8 {
    if b & (0x80u8 >> (col as u8)) > 0 {
        1u8
    } else {
        0u8
    }
}

/// Apply one sprite bit to the buffer: the destination wraps modulo the
/// buffer dimensions, the pixel is updated by exclusive-or, and the
/// collision accumulator records a set pixel that a set bit lands on.
pub open spec fn drw_bit(
    vram: Seq<Seq<u8>>,
    vf: u8,
    b: u8,
    x: u8,
    y: u8,
    row: int,
    col: int,
) -> (Seq<Seq<u8>>, u8) {
    let cy = (y + row) % (vram.len() as int);
    let cx = (x + col) % (vram[0].len() as int);
    let color = sprite_pixel(b, col);
    let hit: u8 = if vram[cy][cx] != 0 && color != 0 {
        1u8
    } else {
        0u8
    };
    (vram.update(cy, vram[cy].update(cx, vram[cy][cx] ^ color)), vf | hit)
}

/// Apply the first `ncols` bits of one sprite byte, leftmost first.
pub open spec fn drw_row(
    vram: Seq<Seq<u8>>,
    vf: u8,
    b: u8,
    x: u8,
    y: u8,
    row: int,
    ncols: int,
) -> (Seq<Seq<u8>>, u8)
    decreases ncols,
{
    if ncols <= 0 {
        (vram, vf)
    } else {
        let prev = drw_row(vram, vf, b, x, y, row, ncols - 1);
        drw_bit(prev.0, prev.1, b, x, y, row, ncols - 1)
    }
}

/// Apply the first `nrows` bytes of the sprite read from memory at the
/// index register, top row first, eight bits per row.
pub open spec fn drw_sprite(
    vram: Seq<Seq<u8>>,
    vf: u8,
    mem: Seq<u8>,
    i: u16,
    x: u8,
    y: u8,
    nrows: int,
) -> (Seq<Seq<u8>>, u8)
    decreases nrows,
{
    if nrows <= 0 {
        (vram, vf)
    } else {
        let prev = drw_sprite(vram, vf, mem, i, x, y, nrows - 1);
        drw_row(prev.0, prev.1, mem[i + nrows - 1], x, y, nrows - 1, 8)
    }
}

/// The draw instruction: blit `n` sprite rows at the coordinates held in
/// registers `xr` and `yr`, with the flags register first reset and then
/// holding the collision indicator.
pub open spec fn spec_drw(m: MachineSpec, xr: u8, yr: u8, n: u8) -> MachineSpec {
    let x = m.v[xr as int];
    let y = m.v[yr as int];
    let r = drw_sprite(m.vram, 0u8, m.mem, m.i, x, y, n as int);
    MachineSpec { vram: r.0, v: m.v.update(0xF, r.1), ..m }
}

/// An all-clear pixel buffer of the same shape.
pub open spec fn cleared(vram: Seq<Seq<u8>>) -> Seq<Seq<u8>> {
    vram.map_values(|row: Seq<u8>| Seq::new(row.len(), |c: int| 0u8))
}

/// The program counter advanced over one skipped instruction.
pub open spec fn skipped(m: MachineSpec) -> MachineSpec {
    MachineSpec { pc: (m.pc + 2) as u16, ..m }
}

/// The side conditions under which one instruction executes without fault:
/// stack room for call and return, memory room for the block and sprite
/// operations, and no 16-bit carry out of the program counter or the index
/// register. All other instructions are unconditional.
pub open spec fn exec_pre(m: MachineSpec, inst: Inst) -> bool {
    match inst {
        Inst::RET => 1 <= m.sp <= 16,
        Inst::CALL(_) => m.sp < 16,
        Inst::SE(_, _) => m.pc + 2 <= 0xFFFF,
        Inst::SNE(_, _) => m.pc + 2 <= 0xFFFF,
        Inst::SEV(_, _) => m.pc + 2 <= 0xFFFF,
        Inst::SNEV(_, _) => m.pc + 2 <= 0xFFFF,
        Inst::SKP(_) => m.pc + 2 <= 0xFFFF,
        Inst::SKNP(_) => m.pc + 2 <= 0xFFFF,
        Inst::DRW(_, _, n) => m.i + n <= 4096,
        Inst::ADDIV(x) => m.i + m.v[x as int] <= 0xFFFF,
        Inst::LDBV(_) => m.i + 2 < 4096,
        Inst::LDIV(x) => m.i + x < 4096,
        Inst::LDVI(x) => m.i + x < 4096,
        _ => true,
    }
}

/// Whether the instruction's effect is a function of the machine state
/// alone: everything but the masked-random draw from the random source and
/// the three key-consulting instructions.
pub open spec fn inst_deterministic(inst: Inst) -> bool {
    match inst {
        Inst::RND(_, _) => false,
        Inst::SKP(_) => false,
        Inst::SKNP(_) => false,
        Inst::LDVKEY(_) => false,
        _ => true,
    }
}

/// The effect of one instruction on the machine state, as a total function.
/// `rnd` stands for the byte the random source returned, `pressed` for the
/// keypad answer a skip-on-key instruction observed, and `key` for the key a
/// blocking read resolved to; instructions that consult none of them ignore
/// them. On inputs outside `exec_pre` the state is returned unchanged.
pub open spec fn spec_execute(
    m: MachineSpec,
    inst: Inst,
    rnd: u8,
    pressed: bool,
    key: u8,
) -> MachineSpec {
    if !exec_pre(m, inst) {
        m
    } else {
        match inst {
            Inst::SYS(_) => m,
            Inst::CLS => MachineSpec { vram: cleared(m.vram), ..m },
            Inst::RET => MachineSpec {
                sp: (m.sp - 1) as u8,
                pc: m.stack[m.sp - 1],
                ..m
            },
            Inst::JP(a) => MachineSpec { pc: a, ..m },
            Inst::CALL(a) => MachineSpec {
                stack: m.stack.update(m.sp as int, m.pc),
                sp: (m.sp + 1) as u8,
                pc: a,
                ..m
            },
            Inst::SE(x, k) => if m.v[x as int] == k {
                skipped(m)
            } else {
                m
            },
            Inst::SNE(x, k) => if m.v[x as int] != k {
                skipped(m)
            } else {
                m
            },
            Inst::SEV(x, y) => if m.v[x as int] == m.v[y as int] {
                skipped(m)
            } else {
                m
            },
            Inst::LD(x, k) => MachineSpec { v: m.v.update(x as int, k), ..m },
            Inst::ADD(x, k) => MachineSpec {
                v: m.v.update(x as int, ((m.v[x as int] + k) % 256) as u8),
                ..m
            },
            Inst::LDV(x, y) => MachineSpec { v: m.v.update(x as int, m.v[y as int]), ..m },
            Inst::OR(x, y) => MachineSpec {
                v: m.v.update(x as int, m.v[x as int] | m.v[y as int]),
                ..m
            },
            Inst::AND(x, y) => MachineSpec {
                v: m.v.update(x as int, m.v[x as int] & m.v[y as int]),
                ..m
            },
            Inst::XOR(x, y) => MachineSpec {
                v: m.v.update(x as int, m.v[x as int] ^ m.v[y as int]),
                ..m
            },
            Inst::ADDV(x, y) => MachineSpec {
                v: m.v.update(x as int, ((m.v[x as int] + m.v[y as int]) % 256) as u8).update(
                    0xF,
                    if m.v[x as int] + m.v[y as int] > 255 {
                        1u8
                    } else {
                        0u8
                    },
                ),
                ..m
            },
            Inst::SUB(x, y) => MachineSpec {
                v: m.v.update(
                    0xF,
                    if m.v[x as int] > m.v[y as int] {
                        1u8
                    } else {
                        0u8
                    },
                ).update(x as int, ((m.v[x as int] - m.v[y as int] + 256) % 256) as u8),
                ..m
            },
            Inst::SHR(x, _) => {
                let v1 = m.v.update(0xF, m.v[x as int] & 0x1);
                MachineSpec { v: v1.update(x as int, v1[x as int] >> 1u8), ..m }
            },
            Inst::SUBN(x, y) => MachineSpec {
                v: m.v.update(
                    0xF,
                    if m.v[y as int] > m.v[x as int] {
                        1u8
                    } else {
                        0u8
                    },
                ).update(x as int, ((m.v[y as int] - m.v[x as int] + 256) % 256) as u8),
                ..m
            },
            Inst::SHL(x, _) => {
                let v1 = m.v.update(0xF, m.v[x as int] & 0x80);
                MachineSpec { v: v1.update(x as int, v1[x as int] << 1u8), ..m }
            },
            Inst::SNEV(x, y) => if m.v[x as int] != m.v[y as int] {
                skipped(m)
            } else {
                m
            },
            Inst::LDI(a) => MachineSpec { i: a, ..m },
            Inst::JPV(a) => MachineSpec { pc: (a + m.v[0]) as u16, ..m },
            Inst::RND(x, k) => MachineSpec { v: m.v.update(x as int, rnd & k), ..m },
            Inst::DRW(x, y, n) => spec_drw(m, x, y, n),
            Inst::SKP(_) => if pressed {
                skipped(m)
            } else {
                m
            },
            Inst::SKNP(_) => if !pressed {
                skipped(m)
            } else {
                m
            },
            Inst::LDVDT(x) => MachineSpec { v: m.v.update(x as int, m.dt), ..m },
            Inst::LDVKEY(x) => MachineSpec { v: m.v.update(x as int, key), ..m },
            Inst::LDDTV(x) => MachineSpec { dt: m.v[x as int], ..m },
            Inst::LDSTV(x) => MachineSpec { st: m.v[x as int], ..m },
            Inst::ADDIV(x) => MachineSpec { i: (m.i + m.v[x as int]) as u16, ..m },
            Inst::LDFV(x) => MachineSpec { i: ((m.v[x as int] & 0xF) * 5) as u16, ..m },
            Inst::LDBV(x) => MachineSpec {
                mem: m.mem.update(m.i as int, (m.v[x as int] / 100) as u8).update(
                    m.i as int + 1,
                    ((m.v[x as int] / 10) % 10) as u8,
                ).update(m.i as int + 2, (m.v[x as int] % 10) as u8),
                ..m
            },
            Inst::LDIV(x) => MachineSpec {
                mem: m.mem.map(
                    |j: int, b: u8|
                        if m.i <= j <= m.i + x {
                            m.v[j - m.i]
                        } else {
                            b
                        },
                ),
                ..m
            },
            Inst::LDVI(x) => MachineSpec {
                v: m.v.map(
                    |j: int, b: u8|
                        if j <= x {
                            m.mem[m.i + j]
                        } else {
                            b
                        },
                ),
                ..m
            },
        }
    }
}

/// Which fatal condition a violated side condition reports.
pub open spec fn guard_error(m: MachineSpec, inst: Inst) -> Chip8Error {
    match inst {
        Inst::RET => Chip8Error::StackUnderflow,
        Inst::CALL(_) => Chip8Error::StackOverflow,
        Inst::DRW(_, _, _) => Chip8Error::MemoryOutOfRange,
        Inst::ADDIV(_) => Chip8Error::IndexOverflow,
        Inst::LDBV(_) => Chip8Error::MemoryOutOfRange,
        Inst::LDIV(_) => Chip8Error::MemoryOutOfRange,
        Inst::LDVI(_) => Chip8Error::MemoryOutOfRange,
        _ => Chip8Error::PcOutOfRange(m.pc),
    }
}

/// One full fetch-decode-execute cycle as a total transition function.
/// Fetching requires the program counter and its successor to be in memory;
/// the fetched word must decode; the instruction's side conditions must
/// hold. A violated check reports its error and leaves the rest of the
/// cycle undone: the program counter has already advanced past a word that
/// was fetched.
pub open spec fn spec_step(
    m: MachineSpec,
    rnd: u8,
    pressed: bool,
    key: u8,
) -> (Result<(), Chip8Error>, MachineSpec) {
    if m.pc + 1 >= 4096 {
        (Err(Chip8Error::PcOutOfRange(m.pc)), m)
    } else {
        let w = fetch_word(m);
        let m2 = MachineSpec { pc: (m.pc + 2) as u16, ..m };
        match crate::instructions::spec_decode(w) {
            Option::None => (Err(Chip8Error::InvalidOpcode(w)), m2),
            Option::Some(inst) => if !exec_pre(m2, inst) {
                (Err(guard_error(m2, inst)), m2)
            } else {
                (Ok(()), spec_execute(m2, inst, rnd, pressed, key))
            },
        }
    }
}

/// One 60 Hz timer tick: both timers count down toward zero, saturating.
/// Nothing else of the machine moves.
pub open spec fn spec_tick(m: MachineSpec) -> MachineSpec {
    MachineSpec {
        dt: if m.dt > 0 {
            (m.dt - 1) as u8
        } else {
            0u8
        },
        st: if m.st > 0 {
            (m.st - 1) as u8
        } else {
            0u8
        },
        ..m
    }
}

/// One scheduler-visible transition: a 60 Hz timer tick, or one
/// fetch-decode-execute cycle for some outcome of the outside sources,
/// whether the cycle succeeded or stopped at a fatal check.
pub open spec fn scheduler_step(m1: MachineSpec, m2: MachineSpec) -> bool {
    ||| m2 == spec_tick(m1)
    ||| exists|rnd: u8, pressed: bool, key: u8| m2 == spec_step(m1, rnd, pressed, key).1
}

/// Whether `m2` lies on some chain of scheduler transitions out of `m1`:
/// everything a run is allowed to do to the machine state.
pub open spec fn reachable(m1: MachineSpec, m2: MachineSpec) -> bool {
    exists|tr: Seq<MachineSpec>|
        {
            &&& tr.len() >= 1
            &&& tr[0] == m1
            &&& tr.last() == m2
            &&& forall|k: int|
                0 <= k < tr.len() - 1 ==> #[trigger] scheduler_step(tr[k], tr[k + 1])
        }
}

/// Every state is reachable from itself by the empty chain.
pub proof fn lemma_reachable_refl(m: MachineSpec)
    ensures
        reachable(m, m),
{
    let tr = seq![m];
    assert(tr.len() >= 1 && tr[0] == m && tr.last() == m);
    assert(forall|k: int| 0 <= k < tr.len() - 1 ==> #[trigger] scheduler_step(tr[k], tr[k + 1]));
}

/// A chain extends by one more scheduler transition.
pub proof fn lemma_reachable_extend(m1: MachineSpec, m2: MachineSpec, m3: MachineSpec)
    requires
        reachable(m1, m2),
        scheduler_step(m2, m3),
    ensures
        reachable(m1, m3),
{
    let tr = choose|tr: Seq<MachineSpec>|
        {
            &&& tr.len() >= 1
            &&& tr[0] == m1
            &&& tr.last() == m2
            &&& forall|k: int|
                0 <= k < tr.len() - 1 ==> #[trigger] scheduler_step(tr[k], tr[k + 1])
        };
    let tr2 = tr.push(m3);
    assert(tr2.len() >= 1 && tr2[0] == m1 && tr2.last() == m3);
    assert forall|k: int| 0 <= k < tr2.len() - 1 implies #[trigger] scheduler_step(
        tr2[k],
        tr2[k + 1],
    ) by {
        if k < tr.len() - 1 {
            assert(tr2[k] == tr[k]);
            assert(tr2[k + 1] == tr[k + 1]);
        } else {
            assert(tr2[k] == tr.last());
            assert(tr2[k + 1] == m3);
        }
    }
}

} // verus!
