use chip8::opcode::{Digits, Opcode};
use chip8::Chip8Error;
use std::convert::TryFrom;

fn decoded(word: u16) -> Opcode {
    match Opcode::try_from(word) {
        Ok(op) => op,
        Err(e) => panic!("{:#06x} was not decoded: {:?}", word, e),
    }
}

#[test]
fn digits_are_the_nibbles() {
    let Digits(a, x, y, n) = Digits::from(0xABCD);
    assert_eq!((a, x, y, n), (0xA, 0xB, 0xC, 0xD));
    let Digits(a, x, y, n) = Digits::from(0x0000);
    assert_eq!((a, x, y, n), (0, 0, 0, 0));
    let Digits(a, x, y, n) = Digits::from(0xFFFF);
    assert_eq!((a, x, y, n), (0xF, 0xF, 0xF, 0xF));
    let Digits(a, x, y, n) = Digits::from(0x1020);
    assert_eq!((a, x, y, n), (1, 0, 2, 0));
}

#[test]
fn decodes_display_and_flow() {
    assert_eq!(decoded(0x00E0), Opcode::Cls);
    assert_eq!(decoded(0x00EE), Opcode::Ret);
    assert_eq!(decoded(0x0000), Opcode::Sys(0x000));
    assert_eq!(decoded(0x0123), Opcode::Sys(0x123));
    assert_eq!(decoded(0x00E1), Opcode::Sys(0x0E1));
    assert_eq!(decoded(0x01E0), Opcode::Sys(0x1E0));
    assert_eq!(decoded(0x1ABC), Opcode::Goto(0xABC));
    assert_eq!(decoded(0x2FFF), Opcode::Call(0xFFF));
    assert_eq!(decoded(0xB123), Opcode::Jump(0x123));
    assert_eq!(decoded(0xD12F), Opcode::Draw(1, 2, 0xF));
    assert_eq!(decoded(0xDAB0), Opcode::Draw(0xA, 0xB, 0));
}

#[test]
fn decodes_conditions_and_constants() {
    assert_eq!(decoded(0x3A12), Opcode::SeC(0xA, 0x12));
    assert_eq!(decoded(0x4BFF), Opcode::SneC(0xB, 0xFF));
    assert_eq!(decoded(0x5120), Opcode::Se(1, 2));
    assert_eq!(decoded(0x9EF0), Opcode::Sne(0xE, 0xF));
    assert_eq!(decoded(0x6C34), Opcode::SetC(0xC, 0x34));
    assert_eq!(decoded(0x7D01), Opcode::AddC(0xD, 0x01));
    assert_eq!(decoded(0xC7F0), Opcode::Rand(7, 0xF0));
}

#[test]
fn decodes_register_arithmetic() {
    assert_eq!(decoded(0x8120), Opcode::Assign(1, 2));
    assert_eq!(decoded(0x8121), Opcode::Or(1, 2));
    assert_eq!(decoded(0x8122), Opcode::And(1, 2));
    assert_eq!(decoded(0x8123), Opcode::Xor(1, 2));
    assert_eq!(decoded(0x8124), Opcode::Add(1, 2));
    assert_eq!(decoded(0x8125), Opcode::Sub(1, 2));
    assert_eq!(decoded(0x8126), Opcode::Shr(1, 2));
    assert_eq!(decoded(0x8127), Opcode::Subn(1, 2));
    assert_eq!(decoded(0x812E), Opcode::Shl(1, 2));
}

#[test]
fn decodes_memory_keys_and_timers() {
    assert_eq!(decoded(0xA456), Opcode::SetPtr(0x456));
    assert_eq!(decoded(0xF31E), Opcode::AddPtr(3));
    assert_eq!(decoded(0xF429), Opcode::SpriteAddr(4));
    assert_eq!(decoded(0xF533), Opcode::SetBCD(5));
    assert_eq!(decoded(0xF655), Opcode::Dump(6));
    assert_eq!(decoded(0xF765), Opcode::Load(7));
    assert_eq!(decoded(0xE89E), Opcode::Skip(8));
    assert_eq!(decoded(0xE9A1), Opcode::Skipn(9));
    assert_eq!(decoded(0xFA0A), Opcode::GetKey(0xA));
    assert_eq!(decoded(0xFB07), Opcode::GetDelay(0xB));
    assert_eq!(decoded(0xFC15), Opcode::SetDelay(0xC));
    assert_eq!(decoded(0xFD18), Opcode::SoundTimer(0xD));
}

#[test]
fn unknown_words_carry_the_word() {
    for word in [0x5001u16, 0x512F, 0x8008, 0x812F, 0x9001, 0xE000, 0xE09F, 0xE1A0, 0xF000, 0xF0FF, 0xF166, 0xFFFF] {
        assert_eq!(Opcode::try_from(word), Err(Chip8Error::UnknownOpcode(word)));
    }
}

#[test]
fn decoding_is_total_and_repeatable() {
    for word in 0..=0xFFFFu16 {
        let first = Opcode::try_from(word);
        let second = Opcode::try_from(word);
        assert_eq!(first, second);
        if let Err(e) = first {
            assert_eq!(e, Chip8Error::UnknownOpcode(word));
        }
    }
}

#[test]
fn every_family_but_four_decodes_every_word() {
    for word in 0..=0xFFFFu16 {
        let family = word >> 12;
        if ![0x5, 0x8, 0x9, 0xE, 0xF].contains(&family) {
            assert!(Opcode::try_from(word).is_ok());
        }
    }
}
