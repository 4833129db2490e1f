use ristretto::code::{from_bytes, to_bytes};
use ristretto::instruction::{Instruction, Operands};

const NOP: u8 = 0x00;

fn plain(opcode: u8) -> Instruction {
    Instruction { opcode, operands: Operands::Empty }
}

fn with(opcode: u8, operands: Operands) -> Instruction {
    Instruction { opcode, operands }
}

/// A branch after a `nop` that jumps back to the `nop`.
fn check_branch_back(opcode: u8) {
    let instructions = vec![plain(NOP), with(opcode, Operands::Branch(-1))];
    let expected_bytes = [NOP, opcode, 255, 255];
    let bytes = to_bytes(&instructions).expect("encodes");
    assert_eq!(expected_bytes.as_slice(), bytes.as_slice());
    let decoded = from_bytes(&bytes).expect("decodes");
    assert_eq!(instructions, decoded);
}

#[test]
fn test_to_bytes() {
    let instructions = vec![plain(0x03), plain(0x3b), plain(0x1a), plain(0x04), plain(0x60), plain(0xac)];
    let bytes = to_bytes(&instructions).expect("encodes");
    let result = from_bytes(&bytes).expect("decodes");
    assert_eq!(instructions, result);
}

#[test]
fn test_from_bytes() {
    let bytes = vec![
        3,   // iconst_0
        59,  // istore_0
        26,  // iload_0
        4,   // iconst_1
        96,  // iadd
        172, // ireturn
    ];
    let result = from_bytes(&bytes).expect("decodes");
    let instructions = vec![plain(0x03), plain(0x3b), plain(0x1a), plain(0x04), plain(0x60), plain(0xac)];
    assert_eq!(instructions, result);
}

#[test]
fn test_ifeq() {
    check_branch_back(0x99);
}

#[test]
fn test_ifne() {
    check_branch_back(0x9a);
}

#[test]
fn test_iflt() {
    check_branch_back(0x9b);
}

#[test]
fn test_ifge() {
    check_branch_back(0x9c);
}

#[test]
fn test_ifgt() {
    check_branch_back(0x9d);
}

#[test]
fn test_ifle() {
    check_branch_back(0x9e);
}

#[test]
fn test_if_icmpeq() {
    check_branch_back(0x9f);
}

#[test]
fn test_if_icmpne() {
    check_branch_back(0xa0);
}

#[test]
fn test_if_icmplt() {
    check_branch_back(0xa1);
}

#[test]
fn test_if_icmpge() {
    check_branch_back(0xa2);
}

#[test]
fn test_if_icmpgt() {
    check_branch_back(0xa3);
}

#[test]
fn test_if_icmple() {
    check_branch_back(0xa4);
}

#[test]
fn test_if_acmpeq() {
    check_branch_back(0xa5);
}

#[test]
fn test_if_acmpne() {
    check_branch_back(0xa6);
}

#[test]
fn test_goto() {
    check_branch_back(0xa7);
}

#[test]
fn test_jsr() {
    check_branch_back(0xa8);
}

#[test]
fn test_ifnull() {
    check_branch_back(0xc6);
}

#[test]
fn test_ifnonnull() {
    check_branch_back(0xc7);
}

#[test]
fn test_goto_w() {
    let instructions = vec![with(0xc8, Operands::BranchWide(1)), plain(NOP)];
    let expected_bytes = [0xc8, 0, 0, 0, 5, NOP];
    let bytes = to_bytes(&instructions).expect("encodes");
    assert_eq!(expected_bytes.as_slice(), bytes.as_slice());
    let decoded = from_bytes(&bytes).expect("decodes");
    assert_eq!(instructions, decoded);
}

#[test]
fn test_jsr_w() {
    let instructions = vec![with(0xc9, Operands::BranchWide(1)), plain(NOP)];
    let expected_bytes = [0xc9, 0, 0, 0, 5, NOP];
    let bytes = to_bytes(&instructions).expect("encodes");
    assert_eq!(expected_bytes.as_slice(), bytes.as_slice());
    let decoded = from_bytes(&bytes).expect("decodes");
    assert_eq!(instructions, decoded);
}

#[test]
fn test_tableswitch() {
    let switch = with(
        0xaa,
        Operands::Tableswitch { default: 3, low: 3, high: 4, offsets: vec![1, 2] },
    );
    let instructions = vec![switch, plain(NOP), plain(NOP), plain(NOP)];
    let expected_bytes = [
        0xaa, 0, 0, 0, 0, 0, 0, 26, 0, 0, 0, 3, 0, 0, 0, 4, 0, 0, 0, 24, 0, 0, 0, 25, NOP, NOP,
        NOP,
    ];
    let bytes = to_bytes(&instructions).expect("encodes");
    assert_eq!(expected_bytes.as_slice(), bytes.as_slice());
    let decoded = from_bytes(&bytes).expect("decodes");
    assert_eq!(instructions, decoded);
}

#[test]
fn test_lookupswitch() {
    let switch = with(0xab, Operands::Lookupswitch { default: 3, pairs: vec![(1, 2)] });
    let instructions = vec![switch, plain(NOP), plain(NOP), plain(NOP)];
    let expected_bytes = [
        0xab, 0, 0, 0, 0, 0, 0, 22, 0, 0, 0, 1, 0, 0, 0, 1, 0, 0, 0, 21, NOP, NOP, NOP,
    ];
    let bytes = to_bytes(&instructions).expect("encodes");
    assert_eq!(expected_bytes.as_slice(), bytes.as_slice());
    let decoded = from_bytes(&bytes).expect("decodes");
    assert_eq!(instructions, decoded);
}

#[test]
fn abs_method_branch_offset() {
    // iload_0; ifge L1; iload_0; ineg; ireturn; L1: iload_0; ireturn
    let bytes = vec![0x1a, 0x9c, 0x00, 0x06, 0x1a, 0x74, 0xac, 0x1a, 0xac];
    let decoded = from_bytes(&bytes).expect("decodes");
    assert_eq!(7, decoded.len());
    // ifge at index 1 names index 5, four instructions on
    assert_eq!(with(0x9c, Operands::Branch(4)), decoded[1]);
    let encoded = to_bytes(&decoded).expect("encodes");
    assert_eq!(bytes, encoded);
    // the byte offset is the target's position (7) minus the branch's (1)
    assert_eq!(6, encoded[3]);
}

#[test]
fn tableswitch_padding_follows_position() {
    for leading in 0..4usize {
        let mut instructions: Vec<Instruction> = (0..leading).map(|_| plain(NOP)).collect();
        instructions.push(with(
            0xaa,
            Operands::Tableswitch { default: 1, low: 3, high: 4, offsets: vec![1, 1] },
        ));
        instructions.push(plain(0xb1));
        let bytes = to_bytes(&instructions).expect("encodes");
        let padding = 3 - leading % 4;
        assert_eq!(leading + 1 + padding + 12 + 8 + 1, bytes.len());
        assert!(bytes[leading + 1..leading + 1 + padding].iter().all(|b| *b == 0));
        assert_eq!(0, (leading + 1 + padding) % 4);
        let decoded = from_bytes(&bytes).expect("decodes");
        assert_eq!(instructions, decoded);
        assert_eq!(bytes, to_bytes(&decoded).expect("encodes again"));
    }
}

#[test]
fn nonzero_padding_is_malformed() {
    let bytes = vec![0xaa, 1, 0, 0, 0, 0, 0, 16, 0, 0, 0, 0, 0, 0, 0, 0, 0, 0, 0, 16, 0xb1];
    assert!(from_bytes(&bytes).is_err());
}

#[test]
fn wide_instructions_round_trip() {
    let bytes = vec![0xc4, 0x15, 0x01, 0x00, 0xc4, 0x84, 0x01, 0x00, 0xff, 0xfe, 0xb1];
    let decoded = from_bytes(&bytes).expect("decodes");
    assert_eq!(with(0xc4, Operands::WideLocal { opcode: 0x15, index: 256 }), decoded[0]);
    assert_eq!(with(0xc4, Operands::WideIncrement { index: 256, constant: -2 }), decoded[1]);
    assert_eq!(bytes, to_bytes(&decoded).expect("encodes"));
}

#[test]
fn invokeinterface_requires_zero_byte() {
    assert!(from_bytes(&[0xb9, 0, 1, 1, 0]).is_ok());
    assert!(from_bytes(&[0xb9, 0, 1, 1, 7]).is_err());
    assert!(from_bytes(&[0xba, 0, 1, 0, 1]).is_err());
}

#[test]
fn branch_into_an_instruction_is_malformed() {
    // goto +2 lands inside the sipush that follows
    let bytes = vec![0xa7, 0x00, 0x04, 0x11, 0x00, 0x01, 0xb1];
    assert!(from_bytes(&bytes).is_err());
}

#[test]
fn truncated_and_unknown_opcodes_are_errors() {
    assert!(from_bytes(&[0x11, 0x00]).is_err());
    assert!(from_bytes(&[0xcb]).is_err());
    assert!(from_bytes(&[]).expect("empty code").is_empty());
}

#[test]
fn branch_to_no_instruction_cannot_be_encoded() {
    let instructions = vec![with(0xa7, Operands::Branch(5)), plain(0xb1)];
    assert!(to_bytes(&instructions).is_err());
    let mismatched = vec![with(0x60, Operands::Byte(1))];
    assert!(to_bytes(&mismatched).is_err());
}

use ristretto::error::Error;

#[test]
fn error_kinds_of_the_decoder() {
    assert!(matches!(from_bytes(&[0x10]), Err(Error::Truncated)));
    assert!(matches!(from_bytes(&[0xa7, 0x00]), Err(Error::Truncated)));
    assert!(matches!(from_bytes(&[0xaa, 0, 0, 0, 0, 0, 0]), Err(Error::Truncated)));
    assert!(matches!(from_bytes(&[0xb9, 0, 1, 1, 7]), Err(Error::MalformedInstruction)));
    assert!(matches!(from_bytes(&[0xba, 0, 1, 0, 1]), Err(Error::MalformedInstruction)));
    assert!(matches!(from_bytes(&[0xba, 0, 1, 5]), Err(Error::MalformedInstruction)));
    assert!(matches!(from_bytes(&[0xaa, 1]), Err(Error::MalformedInstruction)));
    assert!(matches!(from_bytes(&[0xcb]), Err(Error::MalformedInstruction)));
}
