use mlem::codec::{decode_program, encode_program};
use mlem::wire::{be_bytes_to_words, words_to_be_bytes};
use mlem::{Address, Instruction, Program, Register};
use serde_cbor::value::Value;

#[test]
fn test_cbor_serde() {
    let program: Program = vec![
        Instruction::NoOp,
        Instruction::Input(Address::MemAbs(1)), // Input to position 1
        Instruction::Input(Address::RegAbs(Register::R1)), // Input to position *R1
        Instruction::Add(Address::RegAbs(Register::R1), Address::MemAbs(1)), // Add
        Instruction::Output(Address::RegAbs(Register::R1)),
        Instruction::Halt,
    ];

    let serialized = encode_program(&program);
    let deserialized = decode_program(&serialized).unwrap();
    println!("Serialized: {:?}", serialized);
    assert!(
        deserialized == program,
        "Deserialized program was not equivalent to the initial program."
    )
}

#[test]
fn test_codec_round_trip_all() {
    // Every instruction kind, every register, and words of every encoded
    // width.
    let regs = vec![
        Register::R0,
        Register::R1,
        Register::R2,
        Register::R3,
        Register::R4,
        Register::R5,
        Register::R6,
        Register::R7,
        Register::SP,
        Register::BP,
    ];
    let words = vec![0, 1, 23, 24, 255, 256, 65535, 65536, 0xFFFF_FFFF, 0x1_0000_0000, u64::MAX];
    let mut program: Program = vec![Instruction::NoOp, Instruction::Halt, Instruction::Illegal];
    for r in regs {
        program.push(Instruction::Zero(Address::RegAbs(r)));
        program.push(Instruction::Push(Address::MemReg(r)));
    }
    for w in words {
        program.push(Instruction::Output(Address::MemAbs(w)));
        program.push(Instruction::Input(Address::Literal(w)));
        program.push(Instruction::Move(Address::Literal(w), Address::MemAbs(w)));
        program.push(Instruction::Add(Address::RegAbs(Register::R0), Address::Literal(w)));
        program.push(Instruction::Sub(Address::MemAbs(w), Address::MemReg(Register::SP)));
        program.push(Instruction::Jump(Address::Literal(w)));
        program.push(Instruction::JumpIfZero(Address::Literal(w), Address::RegAbs(Register::R1)));
        program.push(Instruction::JumpNotZero(Address::MemAbs(w), Address::Literal(w)));
        program.push(Instruction::Pop(Address::MemReg(Register::BP)));
    }
    let encoded = encode_program(&program);
    let decoded = decode_program(&encoded).expect("a canonical encoding must decode");
    assert_eq!(decoded, program);
}

#[test]
fn test_codec_bytes_exact() {
    // [NoOp] is the one-element array holding the text string "NoOp".
    let program: Program = vec![Instruction::NoOp];
    let encoded = encode_program(&program);
    assert_eq!(encoded, vec![0x81, 0x64, 0x4e, 0x6f, 0x4f, 0x70]);
}

#[test]
fn test_cbor_interop() {
    // The encoding is ordinary CBOR: an independent CBOR serializer fed
    // the same externally-tagged structure produces the same bytes.
    let program: Program = vec![
        Instruction::NoOp,
        Instruction::Zero(Address::RegAbs(Register::R3)),
        Instruction::Move(Address::Literal(300), Address::MemAbs(2)),
        Instruction::Halt,
    ];
    let reg = |name: &str| Value::Map(
        vec![(Value::Text("RegAbs".to_string()), Value::Text(name.to_string()))]
            .into_iter()
            .collect(),
    );
    let equivalent = Value::Array(vec![
        Value::Text("NoOp".to_string()),
        Value::Map(
            vec![(Value::Text("Zero".to_string()), reg("R3"))].into_iter().collect(),
        ),
        Value::Map(
            vec![(
                Value::Text("Move".to_string()),
                Value::Array(vec![
                    Value::Map(
                        vec![(Value::Text("Literal".to_string()), Value::Integer(300))]
                            .into_iter()
                            .collect(),
                    ),
                    Value::Map(
                        vec![(Value::Text("MemAbs".to_string()), Value::Integer(2))]
                            .into_iter()
                            .collect(),
                    ),
                ]),
            )]
            .into_iter()
            .collect(),
        ),
        Value::Text("Halt".to_string()),
    ]);
    let reference = serde_cbor::to_vec(&equivalent).unwrap();
    let encoded = encode_program(&program);
    assert_eq!(encoded, reference);
}

#[test]
fn test_decode_rejects_garbage() {
    assert!(decode_program(&vec![]).is_none());
    assert!(decode_program(&vec![0xff]).is_none());
    // Not an array.
    assert!(decode_program(&vec![0x64, 0x4e, 0x6f, 0x4f, 0x70]).is_none());
    // An array claiming one element but holding none.
    assert!(decode_program(&vec![0x81]).is_none());
    // A valid encoding with trailing bytes.
    assert!(decode_program(&vec![0x81, 0x64, 0x4e, 0x6f, 0x4f, 0x70, 0x00]).is_none());
    // An unknown instruction name.
    assert!(decode_program(&vec![0x81, 0x64, 0x4e, 0x6f, 0x4f, 0x71]).is_none());
}

#[test]
fn test_wire_round_trip() {
    let words = vec![0x0102030405060708u64, 0, u64::MAX];
    let bytes = words_to_be_bytes(&words);
    assert_eq!(bytes.len(), 24);
    assert_eq!(bytes[0..8].to_vec(), vec![1, 2, 3, 4, 5, 6, 7, 8]);
    let back = be_bytes_to_words(&bytes);
    assert_eq!(back, words);
    // A residue of fewer than eight bytes is dropped.
    let short = vec![1u8, 2, 3];
    assert!(be_bytes_to_words(&short).is_empty());
}
