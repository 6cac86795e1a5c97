use vstd::prelude::*;

use crate::instructions::Inst;
use crate::machine::{
    drw_bit, drw_row, drw_sprite, machine_wf, spec_execute, spec_tick, sprite_pixel,
    MachineSpec,
};

verus! {

/// Law: add-with-carry. For all register value pairs, the destination
/// register receives the sum modulo 256 and the flags register becomes 1
/// exactly when the true sum exceeded 255. Stated for destinations other
/// than the flags register itself, which the carry write-back overwrites.
pub proof fn lemma_add_with_carry(
    m: MachineSpec,
    x: u8,
    y: u8,
    rnd: u8,
    pressed: bool,
    key: u8,
)
    requires
        m.v.len() == 16,
        x < 16,
        y < 16,
        x != 0xF,
    ensures
        ({
            let a = m.v[x as int];
            let b = m.v[y as int];
            let m1 = spec_execute(m, Inst::ADDV(x, y), rnd, pressed, key);
            &&& m1.v[x as int] == (a + b) % 256
            &&& m1.v[0xF] == if a + b > 255 {
                1u8
            } else {
                0u8
            }
        }),
{
}

/// Law: subtract-with-borrow. For all register value pairs, the flags
/// register becomes 1 exactly when the minuend strictly exceeds the
/// subtrahend, and the destination receives the difference modulo 256.
/// Stated for destinations other than the flags register itself.
pub proof fn lemma_sub_with_borrow(
    m: MachineSpec,
    x: u8,
    y: u8,
    rnd: u8,
    pressed: bool,
    key: u8,
)
    requires
        m.v.len() == 16,
        x < 16,
        y < 16,
        x != 0xF,
    ensures
        ({
            let a = m.v[x as int];
            let b = m.v[y as int];
            let m1 = spec_execute(m, Inst::SUB(x, y), rnd, pressed, key);
            &&& m1.v[x as int] == (a - b + 256) % 256
            &&& m1.v[0xF] == if a > b {
                1u8
            } else {
                0u8
            }
        }),
{
}

/// Law: shift-right. The flags register captures the pre-shift
/// least-significant bit, and the stored value is the logical right shift,
/// that is, the floor half. Stated for sources other than the flags
/// register, which the flag write-back would feed into the shift.
pub proof fn lemma_shift_right(
    m: MachineSpec,
    x: u8,
    y: u8,
    rnd: u8,
    pressed: bool,
    key: u8,
)
    requires
        m.v.len() == 16,
        x < 16,
        y < 16,
        x != 0xF,
    ensures
        ({
            let a = m.v[x as int];
            let m1 = spec_execute(m, Inst::SHR(x, y), rnd, pressed, key);
            &&& m1.v[x as int] == a / 2
            &&& m1.v[0xF] == a % 2
        }),
{
    let a = m.v[x as int];
    assert(a >> 1u8 == a / 2) by (bit_vector);
    assert(a & 1 == a % 2) by (bit_vector);
}

/// Law: shift-left. The flags register captures the pre-shift top bit as a
/// nonzero-or-zero test (the masked value 0x80, not the literal bit), and
/// the stored value is the logical left shift: double the value, modulo
/// 256. Stated for sources other than the flags register.
pub proof fn lemma_shift_left(
    m: MachineSpec,
    x: u8,
    y: u8,
    rnd: u8,
    pressed: bool,
    key: u8,
)
    requires
        m.v.len() == 16,
        x < 16,
        y < 16,
        x != 0xF,
    ensures
        ({
            let a = m.v[x as int];
            let m1 = spec_execute(m, Inst::SHL(x, y), rnd, pressed, key);
            &&& m1.v[x as int] == (2 * a) % 256
            &&& m1.v[0xF] == if a >= 128 {
                0x80u8
            } else {
                0u8
            }
            &&& (m1.v[0xF] != 0 <==> a >= 128)
        }),
{
    let a = m.v[x as int];
    assert(a << 1u8 == (2 * a) % 256) by (bit_vector);
    assert(a & 0x80 == (if a >= 128 {
        0x80u8
    } else {
        0u8
    })) by (bit_vector);
}

/// Law: stack discipline. A call followed by a return restores the program
/// counter to its value just after the call instruction and restores the
/// stack pointer, whatever the fetch of the return put in the program
/// counter in between, and whatever the outside sources answered.
pub proof fn lemma_call_then_ret(
    m: MachineSpec,
    a: u16,
    fetched_pc: u16,
    rnd1: u8,
    pressed1: bool,
    key1: u8,
    rnd2: u8,
    pressed2: bool,
    key2: u8,
)
    requires
        m.stack.len() == 16,
        m.sp < 16,
    ensures
        ({
            let m1 = spec_execute(m, Inst::CALL(a), rnd1, pressed1, key1);
            let m1f = MachineSpec { pc: fetched_pc, ..m1 };
            let m2 = spec_execute(m1f, Inst::RET, rnd2, pressed2, key2);
            &&& m1.pc == a
            &&& m1.sp == m.sp + 1
            &&& m2.pc == m.pc
            &&& m2.sp == m.sp
        }),
{
}

/// Law: timer decoupling. One 60 Hz tick is a function of the two timer
/// values alone and moves nothing else: two machines agreeing on the
/// timers, whatever their programs, rates or screens, tick to the same
/// timer values, each counting down saturating at zero.
pub proof fn lemma_tick_decoupled(m1: MachineSpec, m2: MachineSpec)
    requires
        m1.dt == m2.dt,
        m1.st == m2.st,
    ensures
        spec_tick(m1).dt == spec_tick(m2).dt,
        spec_tick(m1).st == spec_tick(m2).st,
        spec_tick(m1).dt == if m1.dt > 0 {
            m1.dt - 1
        } else {
            0
        },
        spec_tick(m1).st == if m1.st > 0 {
            m1.st - 1
        } else {
            0
        },
        spec_tick(m1) == (MachineSpec { dt: spec_tick(m1).dt, st: spec_tick(m1).st, ..m1 }),
{
}

/// The pixel row a sprite row lands on: wraps modulo the buffer height.
pub open spec fn row_target(y: u8, row: int, rows: int) -> int {
    (y + row) % rows
}

/// The pixel column a sprite column lands on: wraps modulo the buffer
/// width.
pub open spec fn col_target(x: u8, col: int, cols: int) -> int {
    (x + col) % cols
}

/// Whether some set bit of one sprite byte lands on a set pixel.
pub open spec fn row_hits(vram: Seq<Seq<u8>>, b: u8, x: u8, y: u8, row: int, ncols: int) -> bool {
    exists|col: int|
        0 <= col < ncols && sprite_pixel(b, col) == 1 && vram[row_target(y, row, vram.len() as int)][col_target(
            x,
            col,
            vram[0].len() as int,
        )] != 0
}

/// Whether some set bit of the sprite lands on a set pixel.
pub open spec fn sprite_hits(
    vram: Seq<Seq<u8>>,
    mem: Seq<u8>,
    i: u16,
    x: u8,
    y: u8,
    nrows: int,
) -> bool {
    exists|row: int, col: int|
        0 <= row < nrows && 0 <= col < 8 && sprite_pixel(mem[i + row], col) == 1 && vram[row_target(
            y,
            row,
            vram.len() as int,
        )][col_target(x, col, vram[0].len() as int)] != 0
}

/// Offsets below the modulus land on distinct wrapped positions.
proof fn lemma_mod_injective(base: int, d1: int, d2: int, n: int)
    requires
        n > 0,
        base >= 0,
        0 <= d1 < n,
        0 <= d2 < n,
        (base + d1) % n == (base + d2) % n,
    ensures
        d1 == d2,
{
    let q1 = (base + d1) / n;
    let q2 = (base + d2) / n;
    let r = (base + d1) % n;
    vstd::arithmetic::div_mod::lemma_fundamental_div_mod(base + d1, n);
    vstd::arithmetic::div_mod::lemma_fundamental_div_mod(base + d2, n);
    assert(d1 - d2 == (q1 - q2) * n) by (nonlinear_arith)
        requires
            base + d1 == n * q1 + r,
            base + d2 == n * q2 + r,
    ;
    assert(q1 == q2) by (nonlinear_arith)
        requires
            d1 - d2 == (q1 - q2) * n,
            -n < d1 - d2 < n,
            n > 0,
    ;
}

/// The exclusive-or facts the draw laws lean on: zero is neutral, and a
/// second application of the same bit restores the pixel.
proof fn lemma_xor_facts(p: u8, b: u8)
    by (bit_vector)
    ensures
        p ^ 0 == p,
        (p ^ b) ^ b == p,
        0u8 ^ 1u8 == 1u8,
{
}

/// Disjunction of collision indicators held in {0, 1}.
proof fn lemma_or_bits(a: u8, b: u8)
    by (bit_vector)
    requires
        a <= 1,
        b <= 1,
    ensures
        a | b == (if a == 1 || b == 1 {
            1u8
        } else {
            0u8
        }),
{
}

/// What one sprite row does to the buffer when the width is at least
/// eight: every bit lands on its own column of the target pixel row and
/// updates it by exclusive-or once, the other pixels stand, and the
/// collision accumulator rises exactly on a set bit meeting a set pixel.
proof fn lemma_drw_row_pixels(
    vram: Seq<Seq<u8>>,
    vf: u8,
    b: u8,
    x: u8,
    y: u8,
    row: int,
    ncols: int,
)
    requires
        vram.len() > 0,
        vram[0].len() >= 8,
        forall|q: int| 0 <= q < vram.len() ==> (#[trigger] vram[q]).len() == vram[0].len(),
        0 <= ncols <= 8,
        vf <= 1,
        0 <= row,
    ensures
        ({
            let st = drw_row(vram, vf, b, x, y, row, ncols);
            let rows = vram.len() as int;
            let cols = vram[0].len() as int;
            let cy = row_target(y, row, rows);
            &&& st.0.len() == vram.len()
            &&& forall|q: int| 0 <= q < vram.len() ==> (#[trigger] st.0[q]).len() == vram[q].len()
            &&& forall|q: int| 0 <= q < vram.len() && q != cy ==> st.0[q] == vram[q]
            &&& forall|col: int|
                0 <= col < ncols ==> st.0[cy][col_target(x, col, cols)] == vram[cy][col_target(
                    x,
                    col,
                    cols,
                )] ^ sprite_pixel(b, col)
            &&& forall|cc: int|
                0 <= cc < cols && (forall|col: int|
                    0 <= col < ncols ==> col_target(x, col, cols) != cc) ==> st.0[cy][cc]
                    == vram[cy][cc]
            &&& st.1 <= 1
            &&& (st.1 == 1 <==> (vf == 1 || row_hits(vram, b, x, y, row, ncols)))
        }),
    decreases ncols,
{
    let rows = vram.len() as int;
    let cols = vram[0].len() as int;
    let cy = row_target(y, row, rows);
    if ncols <= 0 {
        assert(!row_hits(vram, b, x, y, row, ncols));
    } else {
        lemma_drw_row_pixels(vram, vf, b, x, y, row, ncols - 1);
        let prev = drw_row(vram, vf, b, x, y, row, ncols - 1);
        let c = ncols - 1;
        let cx = col_target(x, c, cols);
        let color = sprite_pixel(b, c);
        let st = drw_bit(prev.0, prev.1, b, x, y, row, c);

        assert(prev.0[0].len() == vram[0].len());
        assert((y + row) % (prev.0.len() as int) == cy);
        assert((x + c) % (prev.0[0].len() as int) == cx);

        // the column this bit lands on was not touched by the earlier bits
        assert forall|col: int| 0 <= col < c implies col_target(x, col, cols) != cx by {
            if col_target(x, col, cols) == cx {
                lemma_mod_injective(x as int, col, c, cols);
            }
        }
        assert(prev.0[cy][cx] == vram[cy][cx]);

        // pixels of the earlier bits keep their once-updated value
        assert forall|col: int|
            0 <= col < ncols implies st.0[cy][col_target(x, col, cols)] == vram[cy][col_target(
                x,
                col,
                cols,
            )] ^ sprite_pixel(b, col) by {
            if col < c {
                if col_target(x, col, cols) == cx {
                    lemma_mod_injective(x as int, col, c, cols);
                }
                assert(st.0[cy][col_target(x, col, cols)] == prev.0[cy][col_target(x, col, cols)]);
            }
        }

        // the collision accumulator
        let hit: u8 = if prev.0[cy][cx] != 0 && color != 0 {
            1u8
        } else {
            0u8
        };
        lemma_or_bits(prev.1, hit);
        if hit == 1 {
            assert(sprite_pixel(b, c) == 1 && vram[cy][cx] != 0);
            assert(row_hits(vram, b, x, y, row, ncols));
        }
        if st.1 == 1 && prev.1 != 1 && hit != 1 {
            assert(false);
        }
        if row_hits(vram, b, x, y, row, ncols) && !row_hits(vram, b, x, y, row, c) {
            let col = choose|col: int|
                0 <= col < ncols && sprite_pixel(b, col) == 1 && vram[cy][col_target(
                    x,
                    col,
                    cols,
                )] != 0;
            assert(col == c);
            assert(hit == 1);
        }
    }
}

/// What a whole sprite does to the buffer when it fits the height and the
/// width is at least eight: every bit lands on its own pixel and updates
/// it by exclusive-or once, every other pixel stands, and the collision
/// indicator is set exactly when some set bit met a set pixel.
proof fn lemma_drw_sprite_pixels(
    vram: Seq<Seq<u8>>,
    vf: u8,
    mem: Seq<u8>,
    i: u16,
    x: u8,
    y: u8,
    nrows: int,
)
    requires
        vram.len() > 0,
        vram[0].len() >= 8,
        forall|q: int| 0 <= q < vram.len() ==> (#[trigger] vram[q]).len() == vram[0].len(),
        0 <= nrows <= vram.len(),
        vf <= 1,
    ensures
        ({
            let st = drw_sprite(vram, vf, mem, i, x, y, nrows);
            let rows = vram.len() as int;
            let cols = vram[0].len() as int;
            &&& st.0.len() == vram.len()
            &&& forall|q: int| 0 <= q < vram.len() ==> (#[trigger] st.0[q]).len() == vram[q].len()
            &&& forall|row: int, col: int|
                0 <= row < nrows && 0 <= col < 8 ==> st.0[row_target(y, row, rows)][col_target(
                    x,
                    col,
                    cols,
                )] == vram[row_target(y, row, rows)][col_target(x, col, cols)] ^ sprite_pixel(
                    mem[i + row],
                    col,
                )
            &&& forall|rr: int|
                0 <= rr < rows && (forall|row: int|
                    0 <= row < nrows ==> row_target(y, row, rows) != rr) ==> st.0[rr] == vram[rr]
            &&& forall|row: int, cc: int|
                0 <= row < nrows && 0 <= cc < cols && (forall|col: int|
                    0 <= col < 8 ==> col_target(x, col, cols) != cc) ==> st.0[row_target(
                    y,
                    row,
                    rows,
                )][cc] == vram[row_target(y, row, rows)][cc]
            &&& st.1 <= 1
            &&& (st.1 == 1 <==> (vf == 1 || sprite_hits(vram, mem, i, x, y, nrows)))
        }),
    decreases nrows,
{
    let rows = vram.len() as int;
    let cols = vram[0].len() as int;
    if nrows <= 0 {
        assert(!sprite_hits(vram, mem, i, x, y, nrows));
    } else {
        lemma_drw_sprite_pixels(vram, vf, mem, i, x, y, nrows - 1);
        let prev = drw_sprite(vram, vf, mem, i, x, y, nrows - 1);
        let r = nrows - 1;
        let b = mem[i + r];
        let cy = row_target(y, r, rows);
        let st = drw_sprite(vram, vf, mem, i, x, y, nrows);
        assert(st == drw_row(prev.0, prev.1, b, x, y, r, 8));

        // the target row of this sprite row was untouched so far
        assert forall|row: int| 0 <= row < r implies row_target(y, row, rows) != cy by {
            if row_target(y, row, rows) == cy {
                lemma_mod_injective(y as int, row, r, rows);
            }
        }
        assert(prev.0[cy] == vram[cy]);
        assert(prev.0[0].len() == cols);
        lemma_drw_row_pixels(prev.0, prev.1, b, x, y, r, 8);

        // earlier rows keep their values through this row's application
        assert forall|row: int, col: int|
            0 <= row < nrows && 0 <= col < 8 implies st.0[row_target(y, row, rows)][col_target(
                x,
                col,
                cols,
            )] == vram[row_target(y, row, rows)][col_target(x, col, cols)] ^ sprite_pixel(
                mem[i + row],
                col,
            ) by {
            if row < r {
                if row_target(y, row, rows) == cy {
                    lemma_mod_injective(y as int, row, r, rows);
                }
                assert(st.0[row_target(y, row, rows)] == prev.0[row_target(y, row, rows)]);
            } else {
                assert(row == r);
                assert(prev.0[cy][col_target(x, col, cols)] == vram[cy][col_target(x, col, cols)]);
            }
        }

        // untargeted rows stand
        assert forall|rr: int|
            0 <= rr < rows && (forall|row: int|
                0 <= row < nrows ==> row_target(y, row, rows) != rr) implies st.0[rr] == vram[rr] by {
            assert(row_target(y, r, rows) != rr);
            assert(st.0[rr] == prev.0[rr]);
        }

        // untargeted columns of targeted rows stand
        assert forall|row: int, cc: int|
            0 <= row < nrows && 0 <= cc < cols && (forall|col: int|
                0 <= col < 8 ==> col_target(x, col, cols) != cc) implies st.0[row_target(
                y,
                row,
                rows,
            )][cc] == vram[row_target(y, row, rows)][cc] by {
            if row < r {
                if row_target(y, row, rows) == cy {
                    lemma_mod_injective(y as int, row, r, rows);
                }
                assert(st.0[row_target(y, row, rows)] == prev.0[row_target(y, row, rows)]);
            } else {
                assert(row == r);
                assert(prev.0[cy][cc] == vram[cy][cc]);
            }
        }

        // the collision indicator
        if st.1 == 1 {
            if prev.1 != 1 {
                assert(row_hits(prev.0, b, x, y, r, 8));
                let col = choose|col: int|
                    0 <= col < 8 && sprite_pixel(b, col) == 1 && prev.0[cy][col_target(
                        x,
                        col,
                        cols,
                    )] != 0;
                assert(vram[cy][col_target(x, col, cols)] != 0);
                assert(sprite_hits(vram, mem, i, x, y, nrows));
            } else {
                assert(vf == 1 || sprite_hits(vram, mem, i, x, y, nrows - 1));
                if vf != 1 {
                    let (row, col) = choose|row: int, col: int|
                        0 <= row < nrows - 1 && 0 <= col < 8 && sprite_pixel(mem[i + row], col)
                            == 1 && vram[row_target(y, row, rows)][col_target(x, col, cols)] != 0;
                    assert(sprite_hits(vram, mem, i, x, y, nrows));
                }
            }
        }
        if vf == 1 {
            assert(st.1 == 1);
        }
        if sprite_hits(vram, mem, i, x, y, nrows) && st.1 != 1 {
            let (row, col) = choose|row: int, col: int|
                0 <= row < nrows && 0 <= col < 8 && sprite_pixel(mem[i + row], col) == 1
                    && vram[row_target(y, row, rows)][col_target(x, col, cols)] != 0;
            if row < r {
                assert(sprite_hits(vram, mem, i, x, y, nrows - 1));
                assert(prev.1 == 1);
                assert(false);
            } else {
                assert(row == r);
                assert(prev.0[cy][col_target(x, col, cols)] != 0);
                assert(row_hits(prev.0, b, x, y, r, 8));
                assert(false);
            }
        }
    }
}

/// Law: draw collision. Drawing a sprite with at least one set bit onto
/// clear target pixels lights them without collision; drawing the same
/// sprite at the same place again clears what the first draw lit, restores
/// the whole buffer, and reports a collision. Stated for sprites that fit
/// the buffer without self-overlap (at most one row per buffer row, width
/// at least eight) and coordinate registers other than the flags register,
/// which the collision report overwrites.
pub proof fn lemma_draw_twice(m: MachineSpec, xr: u8, yr: u8, n: u8, rnd: u8, pressed: bool, key: u8)
    requires
        machine_wf(m),
        xr < 16,
        yr < 16,
        xr != 0xF,
        yr != 0xF,
        1 <= n <= m.vram.len(),
        m.vram[0].len() >= 8,
        m.i + n <= 4096,
        ({
            let x = m.v[xr as int];
            let y = m.v[yr as int];
            let rows = m.vram.len() as int;
            let cols = m.vram[0].len() as int;
            &&& (exists|row: int, col: int|
                0 <= row < n && 0 <= col < 8 && #[trigger] sprite_pixel(m.mem[m.i + row], col)
                    == 1)
            &&& forall|row: int, col: int|
                0 <= row < n && 0 <= col < 8 && #[trigger] sprite_pixel(m.mem[m.i + row], col)
                    == 1 ==> m.vram[row_target(y, row, rows)][col_target(x, col, cols)] == 0
        }),
    ensures
        ({
            let m1 = spec_execute(m, Inst::DRW(xr, yr, n), rnd, pressed, key);
            let m2 = spec_execute(m1, Inst::DRW(xr, yr, n), rnd, pressed, key);
            &&& m1.v[0xF] == 0
            &&& m2.v[0xF] == 1
            &&& m2.vram == m.vram
        }),
{
    let x = m.v[xr as int];
    let y = m.v[yr as int];
    let rows = m.vram.len() as int;
    let cols = m.vram[0].len() as int;
    let m1 = spec_execute(m, Inst::DRW(xr, yr, n), rnd, pressed, key);
    let st1 = drw_sprite(m.vram, 0u8, m.mem, m.i, x, y, n as int);
    lemma_drw_sprite_pixels(m.vram, 0u8, m.mem, m.i, x, y, n as int);

    // the first draw finds only clear pixels under its set bits
    if sprite_hits(m.vram, m.mem, m.i, x, y, n as int) {
        let (row, col) = choose|row: int, col: int|
            0 <= row < n && 0 <= col < 8 && sprite_pixel(m.mem[m.i + row], col) == 1
                && m.vram[row_target(y, row, rows)][col_target(x, col, cols)] != 0;
        assert(false);
    }
    assert(m1.v[0xF] == 0);
    assert(m1.vram == st1.0);
    assert(m1.v[xr as int] == x);
    assert(m1.v[yr as int] == y);

    let m2 = spec_execute(m1, Inst::DRW(xr, yr, n), rnd, pressed, key);
    let st2 = drw_sprite(st1.0, 0u8, m.mem, m.i, x, y, n as int);
    assert(st1.0[0].len() == cols);
    lemma_drw_sprite_pixels(st1.0, 0u8, m.mem, m.i, x, y, n as int);

    // a set bit of the sprite now lands on the pixel it lit
    let (row0, col0) = choose|row: int, col: int|
        0 <= row < n && 0 <= col < 8 && #[trigger] sprite_pixel(m.mem[m.i + row], col) == 1;
    lemma_xor_facts(m.vram[row_target(y, row0, rows)][col_target(x, col0, cols)], 1u8);
    assert(st1.0[row_target(y, row0, rows)][col_target(x, col0, cols)] == 1);
    assert(sprite_hits(st1.0, m.mem, m.i, x, y, n as int));
    assert(m2.v[0xF] == 1);

    // the second draw undoes the first, pixel by pixel
    assert forall|rr: int, cc: int|
        0 <= rr < rows && 0 <= cc < cols implies st2.0[rr][cc] == m.vram[rr][cc] by {
        if exists|row: int| 0 <= row < n && row_target(y, row, rows) == rr {
            let row = choose|row: int| 0 <= row < n && row_target(y, row, rows) == rr;
            if exists|col: int| 0 <= col < 8 && col_target(x, col, cols) == cc {
                let col = choose|col: int| 0 <= col < 8 && col_target(x, col, cols) == cc;
                let bit = sprite_pixel(m.mem[m.i + row], col);
                assert(st1.0[rr][cc] == m.vram[rr][cc] ^ bit);
                assert(st2.0[rr][cc] == st1.0[rr][cc] ^ bit);
                lemma_xor_facts(m.vram[rr][cc], bit);
            } else {
                assert(forall|col: int| 0 <= col < 8 ==> col_target(x, col, cols) != cc);
                assert(st1.0[rr][cc] == m.vram[rr][cc]);
                assert(st2.0[rr][cc] == st1.0[rr][cc]);
            }
        } else {
            assert(forall|row: int| 0 <= row < n ==> row_target(y, row, rows) != rr);
            assert(st1.0[rr] == m.vram[rr]);
            assert(st2.0[rr] == st1.0[rr]);
        }
    }
    assert(st2.0 =~~= m.vram);
}

/// Law: screen wraparound. A sprite drawn with its x coordinate at the
/// last column puts its second sprite column at column zero: that pixel of
/// each target row is updated with bit one of the sprite row. Stated for
/// sprites that fit the height of a buffer at least eight wide.
pub proof fn lemma_draw_wraparound(
    m: MachineSpec,
    xr: u8,
    yr: u8,
    n: u8,
    rnd: u8,
    pressed: bool,
    key: u8,
)
    requires
        machine_wf(m),
        xr < 16,
        yr < 16,
        n <= m.vram.len(),
        m.vram[0].len() >= 8,
        m.i + n <= 4096,
        m.v[xr as int] == m.vram[0].len() - 1,
    ensures
        ({
            let y = m.v[yr as int];
            let rows = m.vram.len() as int;
            let m1 = spec_execute(m, Inst::DRW(xr, yr, n), rnd, pressed, key);
            forall|row: int|
                0 <= row < n ==> m1.vram[row_target(y, row, rows)][0] == m.vram[row_target(
                    y,
                    row,
                    rows,
                )][0] ^ sprite_pixel(m.mem[m.i + row], 1)
        }),
{
    let x = m.v[xr as int];
    let y = m.v[yr as int];
    let rows = m.vram.len() as int;
    let cols = m.vram[0].len() as int;
    lemma_drw_sprite_pixels(m.vram, 0u8, m.mem, m.i, x, y, n as int);
    assert(x + 1 == cols);
    assert(col_target(x, 1, cols) == 0) by {
        assert((x + 1) % (cols as int) == 0) by (nonlinear_arith)
            requires
                x + 1 == cols,
                cols > 0,
        ;
    }
}

} // verus!
