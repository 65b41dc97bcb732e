use lejit::jit::{JitError, JitOp, JitReg, Opcode, Register};
use lejit::x86_64::{
    encode_addri, encode_divri, encode_divrr, encode_movri, encode_movrr, encode_mul_div_rr,
    encode_mulri, encode_mulrr, encode_popr, encode_pushr, encode_rex, encode_subri,
    needed_bytes,
};

const ALL_REGS: [JitReg; 16] = [
    JitReg::R1,
    JitReg::R2,
    JitReg::R3,
    JitReg::R4,
    JitReg::R5,
    JitReg::R6,
    JitReg::R7,
    JitReg::R8,
    JitReg::R9,
    JitReg::R10,
    JitReg::R11,
    JitReg::R12,
    JitReg::R13,
    JitReg::R14,
    JitReg::SP,
    JitReg::BP,
];

#[test]
fn width_classifier_boundaries() {
    assert_eq!(needed_bytes(0), 1);
    assert_eq!(needed_bytes(255), 1);
    assert_eq!(needed_bytes(256), 2);
    assert_eq!(needed_bytes(65535), 2);
    assert_eq!(needed_bytes(65536), 3);
    assert_eq!(needed_bytes(4294967295), 3);
    assert_eq!(needed_bytes(4294967296), 4);
    assert_eq!(needed_bytes(u64::MAX), 4);
}

#[test]
fn register_table_unique_within_bank() {
    for (i, a) in ALL_REGS.iter().enumerate() {
        for b in ALL_REGS.iter().skip(i + 1) {
            if a.extended() == b.extended() {
                assert_ne!(a.to_real_reg(), b.to_real_reg(), "{:?} vs {:?}", a, b);
            }
        }
    }
    for r in ALL_REGS.iter() {
        assert!(r.to_real_reg() <= 7);
    }
}

#[test]
fn rex_prefix_bits() {
    assert_eq!(encode_rex(JitReg::R1, None, false), 0x40);
    assert_eq!(encode_rex(JitReg::R1, None, true), 0x48);
    assert_eq!(encode_rex(JitReg::R6, None, true), 0x49);
    assert_eq!(encode_rex(JitReg::R1, Some(JitReg::R6), true), 0x49);
    assert_eq!(encode_rex(JitReg::R6, Some(JitReg::R1), true), 0x4c);
    assert_eq!(encode_rex(JitReg::R6, Some(JitReg::R14), true), 0x4d);
}

#[test]
fn addri_short_and_long_forms() {
    assert_eq!(encode_addri(JitReg::R1, 4).unwrap(), vec![0x48, 0x83, 0xc0, 0x04]);
    assert_eq!(encode_addri(JitReg::R6, 255).unwrap(), vec![0x49, 0x83, 0xc0, 0xff]);
    assert_eq!(
        encode_addri(JitReg::R1, 1000000000).unwrap(),
        vec![0x48, 0x81, 0xc0, 0x00, 0xca, 0x9a, 0x3b]
    );
}

#[test]
fn subri_short_and_long_forms() {
    assert_eq!(encode_subri(JitReg::R1, 4).unwrap(), vec![0x48, 0x83, 0xe8, 0x04]);
    assert_eq!(
        encode_subri(JitReg::R2, 65536).unwrap(),
        vec![0x48, 0x81, 0xef, 0x00, 0x00, 0x01, 0x00]
    );
    assert_eq!(
        encode_subri(JitReg::R1, 500000000).unwrap(),
        vec![0x48, 0x81, 0xe8, 0x00, 0x65, 0xcd, 0x1d]
    );
}

#[test]
fn wide_add_sub_immediates_are_refused() {
    assert_eq!(
        encode_addri(JitReg::R1, 4294967296),
        Err(JitError::UnsupportedImmediateWidth)
    );
    assert_eq!(
        encode_subri(JitReg::R1, u64::MAX),
        Err(JitError::UnsupportedImmediateWidth)
    );
    assert_eq!(
        JitOp::Addri(JitReg::R1, 1u64 << 40).len(),
        Err(JitError::UnsupportedImmediateWidth)
    );
    assert_eq!(
        JitOp::Subri(JitReg::R1, 1u64 << 40).len(),
        Err(JitError::UnsupportedImmediateWidth)
    );
}

#[test]
fn push_pop_prefix_only_for_extended() {
    assert_eq!(encode_pushr(JitReg::R1), vec![0x50]);
    assert_eq!(encode_pushr(JitReg::R6), vec![0x49, 0x50]);
    assert_eq!(encode_popr(JitReg::R1), vec![0x58]);
    assert_eq!(encode_popr(JitReg::R14), vec![0x49, 0x5f]);
}

#[test]
fn movrr_fixed_three_bytes() {
    assert_eq!(encode_movrr(JitReg::R1, JitReg::R2), vec![0x48, 0x89, 0xf8]);
    assert_eq!(encode_movrr(JitReg::R6, JitReg::R14), vec![0x4d, 0x89, 0xf8]);
}

#[test]
fn movri_short_form_and_omitted_prefix() {
    assert_eq!(encode_movri(JitReg::R1, 1), vec![0xb8, 0x01, 0x00, 0x00, 0x00]);
    assert_eq!(encode_movri(JitReg::R1, 10000), vec![0xb8, 0x10, 0x27, 0x00, 0x00]);
    assert_eq!(encode_movri(JitReg::R6, 3), vec![0x41, 0xb8, 0x03, 0x00, 0x00, 0x00]);
}

#[test]
fn movri_wide_literal_uses_ten_byte_form() {
    let enc = encode_movri(JitReg::R1, 1000000000000);
    assert_eq!(
        enc,
        vec![0x48, 0xb8, 0x00, 0x10, 0xa5, 0xd4, 0xe8, 0x00, 0x00, 0x00]
    );
    assert_eq!(enc.len(), 10);
    let bytes = 1000000000000u64.to_le_bytes();
    assert_eq!(&enc[2..], &bytes[..]);
}

#[test]
fn mul_div_on_fixed_pair_is_bare_opcode() {
    assert_eq!(encode_mulrr(JitReg::R1, JitReg::R3), vec![0x48, 0xf7, 0xe6]);
    assert_eq!(encode_divrr(JitReg::R1, JitReg::R3), vec![0x48, 0xf7, 0xf6]);
}

#[test]
fn mulrr_spills_around_fixed_registers() {
    assert_eq!(
        encode_mulrr(JitReg::R4, JitReg::R5),
        vec![
            0x50, // push rax
            0x48, 0x89, 0xd0, // mov rax <- rdx
            0x56, // push rsi
            0x48, 0x89, 0xce, // mov rsi <- rcx
            0x48, 0xf7, 0xe6, // mul rsi
            0x5e, // pop rsi
            0x48, 0x89, 0xc2, // mov rdx <- rax
            0x58, // pop rax
        ]
    );
    assert_eq!(
        encode_mul_div_rr(JitReg::R4, JitReg::R5, 0b100),
        encode_mulrr(JitReg::R4, JitReg::R5)
    );
}

#[test]
fn mulri_materializes_immediate_in_scratch() {
    assert_eq!(
        encode_mulri(JitReg::R3, 300),
        vec![
            0x51, // push rcx (scratch, since the operand is rsi itself)
            0xb9, 0x2c, 0x01, 0x00, 0x00, // mov rcx <- 300
            0x50, // push rax
            0x48, 0x89, 0xf0, // mov rax <- rsi
            0x56, // push rsi
            0x48, 0x89, 0xce, // mov rsi <- rcx
            0x48, 0xf7, 0xe6, // mul rsi
            0x5e, // pop rsi
            0x48, 0x89, 0xc6, // mov rsi <- rax
            0x58, // pop rax
            0x59, // pop rcx
        ]
    );
}

#[test]
fn divri_uses_default_scratch() {
    assert_eq!(
        encode_divri(JitReg::R1, 7),
        vec![
            0x56, // push rsi
            0xbe, 0x07, 0x00, 0x00, 0x00, // mov rsi <- 7
            0x48, 0xf7, 0xf6, // div rsi
            0x5e, // pop rsi
        ]
    );
}

#[test]
fn predicted_lengths_match_encodings() {
    let cases: Vec<(JitOp, usize)> = vec![
        (JitOp::Addri(JitReg::R1, 4), 4),
        (JitOp::Addri(JitReg::R1, 1000000000), 7),
        (JitOp::Subri(JitReg::R6, 200), 4),
        (JitOp::Subri(JitReg::R2, 65536), 7),
        (JitOp::Mulrr(JitReg::R4, JitReg::R5), 16),
        (JitOp::Mulrr(JitReg::R1, JitReg::R3), 3),
        (JitOp::Divrr(JitReg::R1, JitReg::R3), 3),
        (JitOp::Mulri(JitReg::R3, 300), 23),
        (JitOp::Divri(JitReg::R1, 7), 10),
        (JitOp::Movrr(JitReg::R6, JitReg::R14), 3),
        (JitOp::Movri(JitReg::R1, 1), 5),
        (JitOp::Movri(JitReg::R6, 3), 6),
        (JitOp::Movri(JitReg::R1, 1000000000000), 10),
        (JitOp::Pushr(JitReg::R1), 1),
        (JitOp::Pushr(JitReg::R6), 2),
        (JitOp::Popr(JitReg::R14), 2),
        (JitOp::Call("anything".to_string()), 5),
        (JitOp::Ret, 1),
    ];
    for (op, expected) in cases {
        assert_eq!(op.len().unwrap(), expected, "length of {:?}", op);
    }
}
