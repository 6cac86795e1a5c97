use vstd::prelude::*;

verus! {

/// One decoded instruction. Each variant carries its operand fields already
/// extracted from the 16-bit word: register indices (always below 16), an
/// immediate byte, a 12-bit address (always below 4096), or a nibble count.
#[derive(Debug, Clone, Copy, PartialEq, Eq, Structural)]
pub enum Inst {
    SYS(u16),
    CLS,
    RET,
    JP(u16),
    CALL(u16),
    SE(u8, u8),
    SNE(u8, u8),
    SEV(u8, u8),
    LD(u8, u8),
    ADD(u8, u8),
    LDV(u8, u8),
    OR(u8, u8),
    AND(u8, u8),
    XOR(u8, u8),
    ADDV(u8, u8),
    SUB(u8, u8),
    SHR(u8, u8),
    SUBN(u8, u8),
    SHL(u8, u8),
    SNEV(u8, u8),
    LDI(u16),
    JPV(u16),
    RND(u8, u8),
    DRW(u8, u8, u8),
    SKP(u8),
    SKNP(u8),
    LDVDT(u8),
    LDVKEY(u8),
    LDDTV(u8),
    LDSTV(u8),
    ADDIV(u8),
    LDFV(u8),
    LDBV(u8),
    LDIV(u8),
    LDVI(u8),
}

/// Second nibble of the word: the first register operand.
pub open spec fn x_field(w: u16) -> u8 {
    ((w >> 8) & 0xF) as u8
}

/// Third nibble of the word: the second register operand.
pub open spec fn y_field(w: u16) -> u8 {
    ((w >> 4) & 0xF) as u8
}

/// Lowest nibble of the word: an ALU selector or a sprite row count.
pub open spec fn n_field(w: u16) -> u8 {
    (w & 0xF) as u8
}

/// Low byte of the word: an immediate operand or a selector.
pub open spec fn kk_field(w: u16) -> u8 {
    (w & 0xFF) as u8
}

/// Low 12 bits of the word: an address operand.
pub open spec fn addr_field(w: u16) -> u16 {
    w & 0x0FFF
}

/// The operand fields sit inside their numeric ranges: register indices and
/// nibble counts below 16, addresses below 4096.
pub proof fn lemma_field_bounds(w: u16)
    by (bit_vector)
    ensures
        (w >> 12) < 16,
        x_field(w) < 16,
        y_field(w) < 16,
        n_field(w) < 16,
        addr_field(w) < 4096,
{
}

/// The complete decoding table as a total mathematical function: dispatch on
/// the top nibble, then on further fields for the multiplexed families.
/// `None` marks the unassigned encodings.
pub open spec fn spec_decode(w: u16) -> Option<Inst> {
    let t = w >> 12;
    if w == 0x00E0 {
        Some(Inst::CLS)
    } else if w == 0x00EE {
        Some(Inst::RET)
    } else if t == 0x0 {
        Some(Inst::SYS(addr_field(w)))
    } else if t == 0x1 {
        Some(Inst::JP(addr_field(w)))
    } else if t == 0x2 {
        Some(Inst::CALL(addr_field(w)))
    } else if t == 0x3 {
        Some(Inst::SE(x_field(w), kk_field(w)))
    } else if t == 0x4 {
        Some(Inst::SNE(x_field(w), kk_field(w)))
    } else if t == 0x5 {
        Some(Inst::SEV(x_field(w), y_field(w)))
    } else if t == 0x6 {
        Some(Inst::LD(x_field(w), kk_field(w)))
    } else if t == 0x7 {
        Some(Inst::ADD(x_field(w), kk_field(w)))
    } else if t == 0x8 {
        let n = n_field(w);
        if n == 0x0 {
            Some(Inst::LDV(x_field(w), y_field(w)))
        } else if n == 0x1 {
            Some(Inst::OR(x_field(w), y_field(w)))
        } else if n == 0x2 {
            Some(Inst::AND(x_field(w), y_field(w)))
        } else if n == 0x3 {
            Some(Inst::XOR(x_field(w), y_field(w)))
        } else if n == 0x4 {
            Some(Inst::ADDV(x_field(w), y_field(w)))
        } else if n == 0x5 {
            Some(Inst::SUB(x_field(w), y_field(w)))
        } else if n == 0x6 {
            Some(Inst::SHR(x_field(w), y_field(w)))
        } else if n == 0x7 {
            Some(Inst::SUBN(x_field(w), y_field(w)))
        } else if n == 0xE {
            Some(Inst::SHL(x_field(w), y_field(w)))
        } else {
            None
        }
    } else if t == 0x9 {
        if n_field(w) == 0x0 {
            Some(Inst::SNEV(x_field(w), y_field(w)))
        } else {
            None
        }
    } else if t == 0xA {
        Some(Inst::LDI(addr_field(w)))
    } else if t == 0xB {
        Some(Inst::JPV(addr_field(w)))
    } else if t == 0xC {
        Some(Inst::RND(x_field(w), kk_field(w)))
    } else if t == 0xD {
        Some(Inst::DRW(x_field(w), y_field(w), n_field(w)))
    } else if t == 0xE {
        let kk = kk_field(w);
        if kk == 0x9E {
            Some(Inst::SKP(x_field(w)))
        } else if kk == 0xA1 {
            Some(Inst::SKNP(x_field(w)))
        } else {
            None
        }
    } else if t == 0xF {
        let kk = kk_field(w);
        if kk == 0x07 {
            Some(Inst::LDVDT(x_field(w)))
        } else if kk == 0x0A {
            Some(Inst::LDVKEY(x_field(w)))
        } else if kk == 0x15 {
            Some(Inst::LDDTV(x_field(w)))
        } else if kk == 0x18 {
            Some(Inst::LDSTV(x_field(w)))
        } else if kk == 0x1E {
            Some(Inst::ADDIV(x_field(w)))
        } else if kk == 0x29 {
            Some(Inst::LDFV(x_field(w)))
        } else if kk == 0x33 {
            Some(Inst::LDBV(x_field(w)))
        } else if kk == 0x55 {
            Some(Inst::LDIV(x_field(w)))
        } else if kk == 0x65 {
            Some(Inst::LDVI(x_field(w)))
        } else {
            None
        }
    } else {
        None
    }
}

/// Every operand field of the instruction lies in its range: register
/// indices and nibble counts below 16, addresses below 4096.
pub open spec fn inst_wf(inst: Inst) -> bool {
    match inst {
        Inst::SYS(a) => a < 4096,
        Inst::CLS => true,
        Inst::RET => true,
        Inst::JP(a) => a < 4096,
        Inst::CALL(a) => a < 4096,
        Inst::SE(x, _) => x < 16,
        Inst::SNE(x, _) => x < 16,
        Inst::SEV(x, y) => x < 16 && y < 16,
        Inst::LD(x, _) => x < 16,
        Inst::ADD(x, _) => x < 16,
        Inst::LDV(x, y) => x < 16 && y < 16,
        Inst::OR(x, y) => x < 16 && y < 16,
        Inst::AND(x, y) => x < 16 && y < 16,
        Inst::XOR(x, y) => x < 16 && y < 16,
        Inst::ADDV(x, y) => x < 16 && y < 16,
        Inst::SUB(x, y) => x < 16 && y < 16,
        Inst::SHR(x, y) => x < 16 && y < 16,
        Inst::SUBN(x, y) => x < 16 && y < 16,
        Inst::SHL(x, y) => x < 16 && y < 16,
        Inst::SNEV(x, y) => x < 16 && y < 16,
        Inst::LDI(a) => a < 4096,
        Inst::JPV(a) => a < 4096,
        Inst::RND(x, _) => x < 16,
        Inst::DRW(x, y, n) => x < 16 && y < 16 && n < 16,
        Inst::SKP(x) => x < 16,
        Inst::SKNP(x) => x < 16,
        Inst::LDVDT(x) => x < 16,
        Inst::LDVKEY(x) => x < 16,
        Inst::LDDTV(x) => x < 16,
        Inst::LDSTV(x) => x < 16,
        Inst::ADDIV(x) => x < 16,
        Inst::LDFV(x) => x < 16,
        Inst::LDBV(x) => x < 16,
        Inst::LDIV(x) => x < 16,
        Inst::LDVI(x) => x < 16,
    }
}

/// Law: decoding is total and deterministic. `spec_decode` is a function of
/// the whole 16-bit space, so every word maps to exactly one outcome; this
/// lemma adds that every successfully decoded instruction carries operand
/// fields inside their ranges.
pub proof fn lemma_decode_wf(w: u16)
    ensures
        spec_decode(w) matches Some(i) ==> inst_wf(i),
{
    lemma_field_bounds(w);
}

impl Inst {
    /// Decode one 16-bit instruction word, or report failure for the
    /// unassigned encodings. Matches the decoding table exactly.
    pub fn decode(opcode: u16) -> (r: Option<Inst>)
        ensures
            r == spec_decode(opcode),
            r matches Some(i) ==> inst_wf(i),
    {
        proof {
            lemma_decode_wf(opcode);
        }
        let t = opcode >> 12;
        if opcode == 0x00E0 {
            Some(Inst::CLS)
        } else if opcode == 0x00EE {
            Some(Inst::RET)
        } else if t == 0x0 {
            Some(Inst::SYS(addr_part(opcode)))
        } else if t == 0x1 {
            Some(Inst::JP(addr_part(opcode)))
        } else if t == 0x2 {
            Some(Inst::CALL(addr_part(opcode)))
        } else if t == 0x3 {
            Some(Inst::SE(x_part(opcode), kk_part(opcode)))
        } else if t == 0x4 {
            Some(Inst::SNE(x_part(opcode), kk_part(opcode)))
        } else if t == 0x5 {
            Some(Inst::SEV(x_part(opcode), y_part(opcode)))
        } else if t == 0x6 {
            Some(Inst::LD(x_part(opcode), kk_part(opcode)))
        } else if t == 0x7 {
            Some(Inst::ADD(x_part(opcode), kk_part(opcode)))
        } else if t == 0x8 {
            let n = n_part(opcode);
            if n == 0x0 {
                Some(Inst::LDV(x_part(opcode), y_part(opcode)))
            } else if n == 0x1 {
                Some(Inst::OR(x_part(opcode), y_part(opcode)))
            } else if n == 0x2 {
                Some(Inst::AND(x_part(opcode), y_part(opcode)))
            } else if n == 0x3 {
                Some(Inst::XOR(x_part(opcode), y_part(opcode)))
            } else if n == 0x4 {
                Some(Inst::ADDV(x_part(opcode), y_part(opcode)))
            } else if n == 0x5 {
                Some(Inst::SUB(x_part(opcode), y_part(opcode)))
            } else if n == 0x6 {
                Some(Inst::SHR(x_part(opcode), y_part(opcode)))
            } else if n == 0x7 {
                Some(Inst::SUBN(x_part(opcode), y_part(opcode)))
            } else if n == 0xE {
                Some(Inst::SHL(x_part(opcode), y_part(opcode)))
            } else {
                None
            }
        } else if t == 0x9 {
            if n_part(opcode) == 0x0 {
                Some(Inst::SNEV(x_part(opcode), y_part(opcode)))
            } else {
                None
            }
        } else if t == 0xA {
            Some(Inst::LDI(addr_part(opcode)))
        } else if t == 0xB {
            Some(Inst::JPV(addr_part(opcode)))
        } else if t == 0xC {
            Some(Inst::RND(x_part(opcode), kk_part(opcode)))
        } else if t == 0xD {
            Some(Inst::DRW(x_part(opcode), y_part(opcode), n_part(opcode)))
        } else if t == 0xE {
            let kk = kk_part(opcode);
            if kk == 0x9E {
                Some(Inst::SKP(x_part(opcode)))
            } else if kk == 0xA1 {
                Some(Inst::SKNP(x_part(opcode)))
            } else {
                None
            }
        } else if t == 0xF {
            let kk = kk_part(opcode);
            if kk == 0x07 {
                Some(Inst::LDVDT(x_part(opcode)))
            } else if kk == 0x0A {
                Some(Inst::LDVKEY(x_part(opcode)))
            } else if kk == 0x15 {
                Some(Inst::LDDTV(x_part(opcode)))
            } else if kk == 0x18 {
                Some(Inst::LDSTV(x_part(opcode)))
            } else if kk == 0x1E {
                Some(Inst::ADDIV(x_part(opcode)))
            } else if kk == 0x29 {
                Some(Inst::LDFV(x_part(opcode)))
            } else if kk == 0x33 {
                Some(Inst::LDBV(x_part(opcode)))
            } else if kk == 0x55 {
                Some(Inst::LDIV(x_part(opcode)))
            } else if kk == 0x65 {
                Some(Inst::LDVI(x_part(opcode)))
            } else {
                None
            }
        } else {
            None
        }
    }
}

/// Extract the first register operand of the word.
fn x_part(w: u16) -> (r: u8)
    ensures
        r == x_field(w),
        r < 16,
{
    proof {
        lemma_field_bounds(w);
    }
    ((w >> 8) & 0xF) as u8
}

/// Extract the second register operand of the word.
fn y_part(w: u16) -> (r: u8)
    ensures
        r == y_field(w),
        r < 16,
{
    proof {
        lemma_field_bounds(w);
    }
    ((w >> 4) & 0xF) as u8
}

/// Extract the lowest nibble of the word.
fn n_part(w: u16) -> (r: u8)
    ensures
        r == n_field(w),
        r < 16,
{
    proof {
        lemma_field_bounds(w);
    }
    (w & 0xF) as u8
}

/// Extract the low byte of the word.
fn kk_part(w: u16) -> (r: u8)
    ensures
        r == kk_field(w),
{
    (w & 0xFF) as u8
}

/// Extract the 12-bit address operand of the word.
fn addr_part(w: u16) -> (r: u16)
    ensures
        r == addr_field(w),
        r < 4096,
{
    proof {
        lemma_field_bounds(w);
    }
    w & 0x0FFF
}

} // verus!
