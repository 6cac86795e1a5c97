use chip8::Inst;

/// The documented opcode table, written independently of the decoder: which
/// 16-bit words carry a defined encoding.
fn defined(w: u16) -> bool {
    match w >> 12 {
        0x0..=0x7 | 0xA..=0xD => true,
        0x8 => matches!(w & 0xF, 0x0..=0x7 | 0xE),
        0x9 => w & 0xF == 0,
        0xE => matches!(w & 0xFF, 0x9E | 0xA1),
        0xF => matches!(w & 0xFF, 0x07 | 0x0A | 0x15 | 0x18 | 0x1E | 0x29 | 0x33 | 0x55 | 0x65),
        _ => false,
    }
}

#[test]
fn decode_is_total_over_the_opcode_table() {
    for w in 0..=0xFFFFu16 {
        assert_eq!(Inst::decode(w).is_some(), defined(w), "word {:#06X}", w);
    }
}

#[test]
fn decode_exact_words() {
    assert_eq!(Inst::decode(0x00E0), Some(Inst::CLS));
    assert_eq!(Inst::decode(0x00EE), Some(Inst::RET));
    assert_eq!(Inst::decode(0x0123), Some(Inst::SYS(0x123)));
}

#[test]
fn decode_address_family() {
    assert_eq!(Inst::decode(0x1ABC), Some(Inst::JP(0xABC)));
    assert_eq!(Inst::decode(0x2ABC), Some(Inst::CALL(0xABC)));
    assert_eq!(Inst::decode(0xA210), Some(Inst::LDI(0x210)));
    assert_eq!(Inst::decode(0xB210), Some(Inst::JPV(0x210)));
}

#[test]
fn decode_immediate_family() {
    assert_eq!(Inst::decode(0x31FF), Some(Inst::SE(1, 0xFF)));
    assert_eq!(Inst::decode(0x41FF), Some(Inst::SNE(1, 0xFF)));
    assert_eq!(Inst::decode(0x6105), Some(Inst::LD(1, 0x05)));
    assert_eq!(Inst::decode(0x7105), Some(Inst::ADD(1, 0x05)));
    assert_eq!(Inst::decode(0xC1AA), Some(Inst::RND(1, 0xAA)));
}

#[test]
fn decode_register_pair_family() {
    assert_eq!(Inst::decode(0x5120), Some(Inst::SEV(1, 2)));
    // any low nibble decodes under top nibble 5
    assert_eq!(Inst::decode(0x5127), Some(Inst::SEV(1, 2)));
    assert_eq!(Inst::decode(0x8120), Some(Inst::LDV(1, 2)));
    assert_eq!(Inst::decode(0x8121), Some(Inst::OR(1, 2)));
    assert_eq!(Inst::decode(0x8122), Some(Inst::AND(1, 2)));
    assert_eq!(Inst::decode(0x8123), Some(Inst::XOR(1, 2)));
    assert_eq!(Inst::decode(0x8124), Some(Inst::ADDV(1, 2)));
    assert_eq!(Inst::decode(0x8125), Some(Inst::SUB(1, 2)));
    assert_eq!(Inst::decode(0x8126), Some(Inst::SHR(1, 2)));
    assert_eq!(Inst::decode(0x8127), Some(Inst::SUBN(1, 2)));
    assert_eq!(Inst::decode(0x812E), Some(Inst::SHL(1, 2)));
    assert_eq!(Inst::decode(0x9120), Some(Inst::SNEV(1, 2)));
}

#[test]
fn decode_draw_and_key_family() {
    assert_eq!(Inst::decode(0xD125), Some(Inst::DRW(1, 2, 5)));
    assert_eq!(Inst::decode(0xE19E), Some(Inst::SKP(1)));
    assert_eq!(Inst::decode(0xE1A1), Some(Inst::SKNP(1)));
}

#[test]
fn decode_register_memory_family() {
    assert_eq!(Inst::decode(0xF107), Some(Inst::LDVDT(1)));
    assert_eq!(Inst::decode(0xF10A), Some(Inst::LDVKEY(1)));
    assert_eq!(Inst::decode(0xF115), Some(Inst::LDDTV(1)));
    assert_eq!(Inst::decode(0xF118), Some(Inst::LDSTV(1)));
    assert_eq!(Inst::decode(0xF11E), Some(Inst::ADDIV(1)));
    assert_eq!(Inst::decode(0xF129), Some(Inst::LDFV(1)));
    assert_eq!(Inst::decode(0xF133), Some(Inst::LDBV(1)));
    assert_eq!(Inst::decode(0xF155), Some(Inst::LDIV(1)));
    assert_eq!(Inst::decode(0xF165), Some(Inst::LDVI(1)));
}

#[test]
fn decode_rejects_unassigned_encodings() {
    assert_eq!(Inst::decode(0x8008), None);
    assert_eq!(Inst::decode(0x8009), None);
    assert_eq!(Inst::decode(0x90F1), None);
    assert_eq!(Inst::decode(0xE000), None);
    assert_eq!(Inst::decode(0xF099), None);
}
