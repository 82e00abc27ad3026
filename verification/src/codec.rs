//! The canonical serialized form of programs: CBOR, with the tag-free
//! representation of tagged unions.  A unit variant is a text string
//! holding the variant name; a variant with operands is a single-entry
//! map from the variant name to its payload (one address, or an array of
//! two); a program is an array of instructions; words are unsigned
//! integers in their shortest form.
//!
//! [`encode_program`] and [`decode_program`] are verified against the
//! spec-level codec in this module, and decoding an encoded program is
//! proved to give the program back exactly.

use vstd::prelude::*;

verus! {

use crate::instructions::{Address, Instruction, Register};
use crate::wire::{be64, be_word, lemma_be_word_of_be64};

/// A CBOR item header: the major type in the top three bits, and the
/// item's value (or length) in the shortest of the five unsigned forms.
pub open spec fn hdr(major: u8, v: u64) -> Seq<u8>
    recommends
        major < 8,
{
    let base = (major << 5) as u8;
    if v < 24 {
        seq![(base | (v as u8)) as u8]
    } else if v < 0x100 {
        seq![(base | 24) as u8, v as u8]
    } else if v < 0x1_0000 {
        seq![(base | 25) as u8, (v >> 8) as u8, v as u8]
    } else if v < 0x1_0000_0000 {
        seq![(base | 26) as u8, (v >> 24) as u8, (v >> 16) as u8, (v >> 8) as u8, v as u8]
    } else {
        seq![(base | 27) as u8] + be64(v)
    }
}

/// Parse a CBOR item header at `p`: the major type, the value, and the
/// position just past the header.  The indefinite-length and simple
/// forms are not part of the schema and are rejected.
#[verifier::opaque]
pub open spec fn dec_hdr(b: Seq<u8>, p: int) -> Option<(u8, u64, int)> {
    if !(0 <= p < b.len()) {
        None
    } else {
        let ib = b[p];
        let major = (ib >> 5) as u8;
        let low = (ib & 0x1f) as u8;
        if low < 24 {
            Some((major, low as u64, p + 1))
        } else if low == 24 {
            if p + 2 <= b.len() {
                Some((major, b[p + 1] as u64, p + 2))
            } else {
                None
            }
        } else if low == 25 {
            if p + 3 <= b.len() {
                Some((major, ((b[p + 1] as u64) << 8) | (b[p + 2] as u64), p + 3))
            } else {
                None
            }
        } else if low == 26 {
            if p + 5 <= b.len() {
                Some(
                    (
                        major,
                        ((b[p + 1] as u64) << 24) | ((b[p + 2] as u64) << 16) | ((b[p
                            + 3] as u64) << 8) | (b[p + 4] as u64),
                        p + 5,
                    ),
                )
            } else {
                None
            }
        } else if low == 27 {
            if p + 9 <= b.len() {
                Some((major, be_word(b.subrange(p + 1, p + 9)), p + 9))
            } else {
                None
            }
        } else {
            None
        }
    }
}

/// A slice of a matched region: where `b` holds `e` at `p`, any piece of
/// `e` is found in `b` at the corresponding offset.
proof fn lemma_sub_at(b: Seq<u8>, p: int, e: Seq<u8>, off: int, l: int)
    requires
        0 <= p,
        p + e.len() <= b.len(),
        b.subrange(p, p + e.len()) == e,
        0 <= off,
        0 <= l,
        off + l <= e.len(),
    ensures
        b.subrange(p + off, p + off + l) == e.subrange(off, off + l),
{
    assert forall|i: int| 0 <= i < l implies #[trigger] b.subrange(p + off, p + off + l)[i]
        == e.subrange(off, off + l)[i] by {
        assert(b.subrange(p, p + e.len())[off + i] == e[off + i]);
    }
    assert(b.subrange(p + off, p + off + l) =~= e.subrange(off, off + l));
}

/// Parsing an encoded header finds the major type and value again.
proof fn lemma_dec_hdr(b: Seq<u8>, p: int, major: u8, v: u64)
    requires
        major < 8,
        0 <= p,
        p + hdr(major, v).len() <= b.len(),
        b.subrange(p, p + hdr(major, v).len()) == hdr(major, v),
    ensures
        dec_hdr(b, p) == Some((major, v, p + hdr(major, v).len())),
{
    reveal(dec_hdr);
    let e = hdr(major, v);
    let base = (major << 5) as u8;
    assert(b[p] == e[0]) by {
        assert(b.subrange(p, p + e.len())[0] == e[0]);
    }
    assert forall|i: int| 0 <= i < e.len() implies #[trigger] b[p + i] == e[i] by {
        assert(b.subrange(p, p + e.len())[i] == e[i]);
    }
    assert(b[p] == e[0]) by {
        assert(b.subrange(p, p + e.len())[0] == e[0]);
    }
    if v < 24 {
        let ib = (base | (v as u8)) as u8;
        assert((ib >> 5) == major && (ib & 0x1f) == v as u8 && (v as u8) < 24 && ((v as u8) as u64)
            == v) by (bit_vector)
            requires
                major < 8,
                v < 24,
                ib == ((major << 5) as u8 | (v as u8)) as u8,
        ;
    } else if v < 0x100 {
        let ib = (base | 24) as u8;
        assert((ib >> 5) == major && (ib & 0x1f) == 24 && ((v as u8) as u64) == v) by (bit_vector)
            requires
                major < 8,
                24 <= v < 0x100,
                ib == ((major << 5) as u8 | 24) as u8,
        ;
    } else if v < 0x1_0000 {
        let ib = (base | 25) as u8;
        assert((ib >> 5) == major && (ib & 0x1f) == 25 && ((((v >> 8) as u8) as u64) << 8) | ((
        v as u8) as u64) == v) by (bit_vector)
            requires
                major < 8,
                0x100 <= v < 0x1_0000,
                ib == ((major << 5) as u8 | 25) as u8,
        ;
    } else if v < 0x1_0000_0000 {
        let ib = (base | 26) as u8;
        assert((ib >> 5) == major && (ib & 0x1f) == 26 && ((((v >> 24) as u8) as u64) << 24) | ((((v
            >> 16) as u8) as u64) << 16) | ((((v >> 8) as u8) as u64) << 8) | ((v as u8) as u64)
            == v) by (bit_vector)
            requires
                major < 8,
                0x1_0000 <= v < 0x1_0000_0000,
                ib == ((major << 5) as u8 | 26) as u8,
        ;
    } else {
        let ib = (base | 27) as u8;
        assert((ib >> 5) == major && (ib & 0x1f) == 27) by (bit_vector)
            requires
                major < 8,
                ib == ((major << 5) as u8 | 27) as u8,
        ;
        lemma_sub_at(b, p, e, 1, 8);
        assert(e.subrange(1, 9) =~= be64(v));
        lemma_be_word_of_be64(v);
    }
}

/// The two characters of a register's name.
pub open spec fn reg_name(r: Register) -> (u8, u8) {
    match r {
        Register::R0 => (0x52, 0x30),
        Register::R1 => (0x52, 0x31),
        Register::R2 => (0x52, 0x32),
        Register::R3 => (0x52, 0x33),
        Register::R4 => (0x52, 0x34),
        Register::R5 => (0x52, 0x35),
        Register::R6 => (0x52, 0x36),
        Register::R7 => (0x52, 0x37),
        Register::SP => (0x53, 0x50),
        Register::BP => (0x42, 0x50),
    }
}

/// A register: the two-character text string of its name.
pub open spec fn enc_reg(r: Register) -> Seq<u8> {
    seq![0x62u8, reg_name(r).0, reg_name(r).1]
}

/// Parse a register name at `p`.
#[verifier::opaque]
pub open spec fn dec_reg(b: Seq<u8>, p: int) -> Option<(Register, int)> {
    if !(0 <= p && p + 3 <= b.len()) {
        None
    } else if b[p] != 0x62 {
        None
    } else {
        let c1 = b[p + 1];
        let c2 = b[p + 2];
        if c1 == 0x52 && c2 == 0x30 {
            Some((Register::R0, p + 3))
        } else if c1 == 0x52 && c2 == 0x31 {
            Some((Register::R1, p + 3))
        } else if c1 == 0x52 && c2 == 0x32 {
            Some((Register::R2, p + 3))
        } else if c1 == 0x52 && c2 == 0x33 {
            Some((Register::R3, p + 3))
        } else if c1 == 0x52 && c2 == 0x34 {
            Some((Register::R4, p + 3))
        } else if c1 == 0x52 && c2 == 0x35 {
            Some((Register::R5, p + 3))
        } else if c1 == 0x52 && c2 == 0x36 {
            Some((Register::R6, p + 3))
        } else if c1 == 0x52 && c2 == 0x37 {
            Some((Register::R7, p + 3))
        } else if c1 == 0x53 && c2 == 0x50 {
            Some((Register::SP, p + 3))
        } else if c1 == 0x42 && c2 == 0x50 {
            Some((Register::BP, p + 3))
        } else {
            None
        }
    }
}

/// Parsing an encoded register finds the register again.
proof fn lemma_dec_reg(b: Seq<u8>, p: int, r: Register)
    requires
        0 <= p,
        p + 3 <= b.len(),
        b.subrange(p, p + 3) == enc_reg(r),
    ensures
        dec_reg(b, p) == Some((r, p + 3)),
{
    reveal(dec_reg);
    assert forall|i: int| 0 <= i < 3 implies b[p + i] == enc_reg(r)[i] by {
        assert(b.subrange(p, p + 3)[i] == enc_reg(r)[i]);
    }
}

/// The text-string form of an address variant's name, header included.
pub open spec fn tag_regabs() -> Seq<u8> {
    seq![0x66u8, 0x52, 0x65, 0x67, 0x41, 0x62, 0x73]
}

/// The name of the `MemAbs` variant, as a text string.
pub open spec fn tag_memabs() -> Seq<u8> {
    seq![0x66u8, 0x4d, 0x65, 0x6d, 0x41, 0x62, 0x73]
}

/// The name of the `MemReg` variant, as a text string.
pub open spec fn tag_memreg() -> Seq<u8> {
    seq![0x66u8, 0x4d, 0x65, 0x6d, 0x52, 0x65, 0x67]
}

/// The name of the `Literal` variant, as a text string.
pub open spec fn tag_literal() -> Seq<u8> {
    seq![0x67u8, 0x4c, 0x69, 0x74, 0x65, 0x72, 0x61, 0x6c]
}

/// An address: a single-entry map from the variant name to its payload —
/// a register for `RegAbs` and `MemReg`, an unsigned integer for
/// `MemAbs` and `Literal`.
pub open spec fn enc_addr(a: Address) -> Seq<u8> {
    match a {
        Address::RegAbs(r) => seq![0xa1u8] + tag_regabs() + enc_reg(r),
        Address::MemAbs(w) => seq![0xa1u8] + tag_memabs() + hdr(0, w),
        Address::MemReg(r) => seq![0xa1u8] + tag_memreg() + enc_reg(r),
        Address::Literal(w) => seq![0xa1u8] + tag_literal() + hdr(0, w),
    }
}

/// Parse an address at `p`.
#[verifier::opaque]
pub open spec fn dec_addr(b: Seq<u8>, p: int) -> Option<(Address, int)> {
    if !(0 <= p < b.len()) {
        None
    } else if b[p] != 0xa1 {
        None
    } else if p + 8 <= b.len() && b[p + 1] == 0x66 && b[p + 2] == 0x52 && b[p + 3] == 0x65 && b[p + 4] == 0x67 && b[p + 5] == 0x41 && b[p + 6] == 0x62 && b[p + 7] == 0x73 {
        match dec_reg(b, p + 8) {
            Some((r, q)) => Some((Address::RegAbs(r), q)),
            None => None,
        }
    } else if p + 8 <= b.len() && b[p + 1] == 0x66 && b[p + 2] == 0x4d && b[p + 3] == 0x65 && b[p + 4] == 0x6d && b[p + 5] == 0x41 && b[p + 6] == 0x62 && b[p + 7] == 0x73 {
        match dec_hdr(b, p + 8) {
            Some((m, v, q)) => if m == 0 {
                Some((Address::MemAbs(v), q))
            } else {
                None
            },
            None => None,
        }
    } else if p + 8 <= b.len() && b[p + 1] == 0x66 && b[p + 2] == 0x4d && b[p + 3] == 0x65 && b[p + 4] == 0x6d && b[p + 5] == 0x52 && b[p + 6] == 0x65 && b[p + 7] == 0x67 {
        match dec_reg(b, p + 8) {
            Some((r, q)) => Some((Address::MemReg(r), q)),
            None => None,
        }
    } else if p + 9 <= b.len() && b[p + 1] == 0x67 && b[p + 2] == 0x4c && b[p + 3] == 0x69 && b[p + 4] == 0x74 && b[p + 5] == 0x65 && b[p + 6] == 0x72 && b[p + 7] == 0x61 && b[p + 8] == 0x6c {
        match dec_hdr(b, p + 9) {
            Some((m, v, q)) => if m == 0 {
                Some((Address::Literal(v), q))
            } else {
                None
            },
            None => None,
        }
    } else {
        None
    }
}

/// Parsing an encoded address finds the address again.
proof fn lemma_dec_addr(b: Seq<u8>, p: int, a: Address)
    requires
        0 <= p,
        p + enc_addr(a).len() <= b.len(),
        b.subrange(p, p + enc_addr(a).len()) == enc_addr(a),
    ensures
        dec_addr(b, p) == Some((a, p + enc_addr(a).len())),
{
    reveal(dec_addr);
    let e = enc_addr(a);
    assert forall|i: int| 0 <= i < e.len() implies #[trigger] b[p + i] == e[i] by {
        assert(b.subrange(p, p + e.len())[i] == e[i]);
    }
    assert(b[p] == e[0]) by {
        assert(b.subrange(p, p + e.len())[0] == e[0]);
    }
    match a {
        Address::RegAbs(r) => {
            lemma_sub_at(b, p, e, 8, 3);
            assert(e.subrange(8, 11) =~= enc_reg(r));
            lemma_dec_reg(b, p + 8, r);
        },
        Address::MemAbs(w) => {
            lemma_sub_at(b, p, e, 8, hdr(0, w).len() as int);
            assert(e.subrange(8, 8 + hdr(0, w).len() as int) =~= hdr(0, w));
            lemma_dec_hdr(b, p + 8, 0, w);
        },
        Address::MemReg(r) => {
            lemma_sub_at(b, p, e, 8, 3);
            assert(e.subrange(8, 11) =~= enc_reg(r));
            lemma_dec_reg(b, p + 8, r);
        },
        Address::Literal(w) => {
            lemma_sub_at(b, p, e, 9, hdr(0, w).len() as int);
            assert(e.subrange(9, 9 + hdr(0, w).len() as int) =~= hdr(0, w));
            lemma_dec_hdr(b, p + 9, 0, w);
        },
    }
}

/// The name of the `NoOp` instruction, as a text string.
pub open spec fn tag_noop() -> Seq<u8> {
    seq![0x64u8, 0x4e, 0x6f, 0x4f, 0x70]
}

/// The name of the `Zero` instruction, as a text string.
pub open spec fn tag_zero() -> Seq<u8> {
    seq![0x64u8, 0x5a, 0x65, 0x72, 0x6f]
}

/// The name of the `Move` instruction, as a text string.
pub open spec fn tag_move() -> Seq<u8> {
    seq![0x64u8, 0x4d, 0x6f, 0x76, 0x65]
}

/// The name of the `Output` instruction, as a text string.
pub open spec fn tag_output() -> Seq<u8> {
    seq![0x66u8, 0x4f, 0x75, 0x74, 0x70, 0x75, 0x74]
}

/// The name of the `Input` instruction, as a text string.
pub open spec fn tag_input() -> Seq<u8> {
    seq![0x65u8, 0x49, 0x6e, 0x70, 0x75, 0x74]
}

/// The name of the `Add` instruction, as a text string.
pub open spec fn tag_add() -> Seq<u8> {
    seq![0x63u8, 0x41, 0x64, 0x64]
}

/// The name of the `Sub` instruction, as a text string.
pub open spec fn tag_sub() -> Seq<u8> {
    seq![0x63u8, 0x53, 0x75, 0x62]
}

/// The name of the `Jump` instruction, as a text string.
pub open spec fn tag_jump() -> Seq<u8> {
    seq![0x64u8, 0x4a, 0x75, 0x6d, 0x70]
}

/// The name of the `JumpIfZero` instruction, as a text string.
pub open spec fn tag_jumpifzero() -> Seq<u8> {
    seq![0x6au8, 0x4a, 0x75, 0x6d, 0x70, 0x49, 0x66, 0x5a, 0x65, 0x72, 0x6f]
}

/// The name of the `JumpNotZero` instruction, as a text string.
pub open spec fn tag_jumpnotzero() -> Seq<u8> {
    seq![0x6bu8, 0x4a, 0x75, 0x6d, 0x70, 0x4e, 0x6f, 0x74, 0x5a, 0x65, 0x72, 0x6f]
}

/// The name of the `Push` instruction, as a text string.
pub open spec fn tag_push() -> Seq<u8> {
    seq![0x64u8, 0x50, 0x75, 0x73, 0x68]
}

/// The name of the `Pop` instruction, as a text string.
pub open spec fn tag_pop() -> Seq<u8> {
    seq![0x63u8, 0x50, 0x6f, 0x70]
}

/// The name of the `Halt` instruction, as a text string.
pub open spec fn tag_halt() -> Seq<u8> {
    seq![0x64u8, 0x48, 0x61, 0x6c, 0x74]
}

/// The name of the `Illegal` instruction, as a text string.
pub open spec fn tag_illegal() -> Seq<u8> {
    seq![0x67u8, 0x49, 0x6c, 0x6c, 0x65, 0x67, 0x61, 0x6c]
}

/// A two-address payload: an array of two.
pub open spec fn enc_two(a1: Address, a2: Address) -> Seq<u8> {
    seq![0x82u8] + enc_addr(a1) + enc_addr(a2)
}

/// Parse a two-address payload at `p`.
#[verifier::opaque]
pub open spec fn dec_two(b: Seq<u8>, p: int) -> Option<(Address, Address, int)> {
    if !(0 <= p < b.len()) {
        None
    } else if b[p] != 0x82 {
        None
    } else {
        match dec_addr(b, p + 1) {
            None => None,
            Some((a1, q1)) => match dec_addr(b, q1) {
                None => None,
                Some((a2, q2)) => Some((a1, a2, q2)),
            },
        }
    }
}

/// Parsing an encoded two-address payload finds both addresses again.
proof fn lemma_dec_two(b: Seq<u8>, p: int, a1: Address, a2: Address)
    requires
        0 <= p,
        p + enc_two(a1, a2).len() <= b.len(),
        b.subrange(p, p + enc_two(a1, a2).len()) == enc_two(a1, a2),
    ensures
        dec_two(b, p) == Some((a1, a2, p + enc_two(a1, a2).len())),
{
    reveal(dec_two);
    let e = enc_two(a1, a2);
    let l1 = enc_addr(a1).len() as int;
    let l2 = enc_addr(a2).len() as int;
    assert(b[p] == e[0]) by {
        assert(b.subrange(p, p + e.len())[0] == e[0]);
    }
    lemma_sub_at(b, p, e, 1, l1);
    assert(e.subrange(1, 1 + l1) =~= enc_addr(a1));
    lemma_dec_addr(b, p + 1, a1);
    lemma_sub_at(b, p, e, 1 + l1, l2);
    assert(e.subrange(1 + l1, 1 + l1 + l2) =~= enc_addr(a2));
    lemma_dec_addr(b, p + 1 + l1, a2);
}

/// An instruction: a bare text string for a unit variant; a single-entry
/// map from the variant name to one address, or to an array of two, for
/// the others.
pub open spec fn enc_instr(i: Instruction) -> Seq<u8> {
    match i {
        Instruction::NoOp => tag_noop(),
        Instruction::Zero(a) => seq![0xa1u8] + tag_zero() + enc_addr(a),
        Instruction::Move(a, b) => seq![0xa1u8] + tag_move() + enc_two(a, b),
        Instruction::Output(a) => seq![0xa1u8] + tag_output() + enc_addr(a),
        Instruction::Input(a) => seq![0xa1u8] + tag_input() + enc_addr(a),
        Instruction::Add(a, b) => seq![0xa1u8] + tag_add() + enc_two(a, b),
        Instruction::Sub(a, b) => seq![0xa1u8] + tag_sub() + enc_two(a, b),
        Instruction::Jump(a) => seq![0xa1u8] + tag_jump() + enc_addr(a),
        Instruction::JumpIfZero(a, b) => seq![0xa1u8] + tag_jumpifzero() + enc_two(a, b),
        Instruction::JumpNotZero(a, b) => seq![0xa1u8] + tag_jumpnotzero() + enc_two(a, b),
        Instruction::Push(a) => seq![0xa1u8] + tag_push() + enc_addr(a),
        Instruction::Pop(a) => seq![0xa1u8] + tag_pop() + enc_addr(a),
        Instruction::Halt => tag_halt(),
        Instruction::Illegal => tag_illegal(),
    }
}

/// Parse one instruction at `p`.
#[verifier::opaque]
pub open spec fn dec_instr(b: Seq<u8>, p: int) -> Option<(Instruction, int)> {
    if !(0 <= p < b.len()) {
        None
    } else if b[p] == 0xa1 {
        if p + 6 <= b.len() && b[p + 1] == 0x64 && b[p + 2] == 0x5a && b[p + 3] == 0x65 && b[p + 4] == 0x72 && b[p + 5] == 0x6f {
            match dec_addr(b, p + 6) {
            Some((a, q)) => Some((Instruction::Zero(a), q)),
            None => None,
        }
        } else if p + 6 <= b.len() && b[p + 1] == 0x64 && b[p + 2] == 0x4d && b[p + 3] == 0x6f && b[p + 4] == 0x76 && b[p + 5] == 0x65 {
            match dec_two(b, p + 6) {
            Some((a, a2, q)) => Some((Instruction::Move(a, a2), q)),
            None => None,
        }
        } else if p + 8 <= b.len() && b[p + 1] == 0x66 && b[p + 2] == 0x4f && b[p + 3] == 0x75 && b[p + 4] == 0x74 && b[p + 5] == 0x70 && b[p + 6] == 0x75 && b[p + 7] == 0x74 {
            match dec_addr(b, p + 8) {
            Some((a, q)) => Some((Instruction::Output(a), q)),
            None => None,
        }
        } else if p + 7 <= b.len() && b[p + 1] == 0x65 && b[p + 2] == 0x49 && b[p + 3] == 0x6e && b[p + 4] == 0x70 && b[p + 5] == 0x75 && b[p + 6] == 0x74 {
            match dec_addr(b, p + 7) {
            Some((a, q)) => Some((Instruction::Input(a), q)),
            None => None,
        }
        } else if p + 5 <= b.len() && b[p + 1] == 0x63 && b[p + 2] == 0x41 && b[p + 3] == 0x64 && b[p + 4] == 0x64 {
            match dec_two(b, p + 5) {
            Some((a, a2, q)) => Some((Instruction::Add(a, a2), q)),
            None => None,
        }
        } else if p + 5 <= b.len() && b[p + 1] == 0x63 && b[p + 2] == 0x53 && b[p + 3] == 0x75 && b[p + 4] == 0x62 {
            match dec_two(b, p + 5) {
            Some((a, a2, q)) => Some((Instruction::Sub(a, a2), q)),
            None => None,
        }
        } else if p + 6 <= b.len() && b[p + 1] == 0x64 && b[p + 2] == 0x4a && b[p + 3] == 0x75 && b[p + 4] == 0x6d && b[p + 5] == 0x70 {
            match dec_addr(b, p + 6) {
            Some((a, q)) => Some((Instruction::Jump(a), q)),
            None => None,
        }
        } else if p + 12 <= b.len() && b[p + 1] == 0x6a && b[p + 2] == 0x4a && b[p + 3] == 0x75 && b[p + 4] == 0x6d && b[p + 5] == 0x70 && b[p + 6] == 0x49 && b[p + 7] == 0x66 && b[p + 8] == 0x5a && b[p + 9] == 0x65 && b[p + 10] == 0x72 && b[p + 11] == 0x6f {
            match dec_two(b, p + 12) {
            Some((a, a2, q)) => Some((Instruction::JumpIfZero(a, a2), q)),
            None => None,
        }
        } else if p + 13 <= b.len() && b[p + 1] == 0x6b && b[p + 2] == 0x4a && b[p + 3] == 0x75 && b[p + 4] == 0x6d && b[p + 5] == 0x70 && b[p + 6] == 0x4e && b[p + 7] == 0x6f && b[p + 8] == 0x74 && b[p + 9] == 0x5a && b[p + 10] == 0x65 && b[p + 11] == 0x72 && b[p + 12] == 0x6f {
            match dec_two(b, p + 13) {
            Some((a, a2, q)) => Some((Instruction::JumpNotZero(a, a2), q)),
            None => None,
        }
        } else if p + 6 <= b.len() && b[p + 1] == 0x64 && b[p + 2] == 0x50 && b[p + 3] == 0x75 && b[p + 4] == 0x73 && b[p + 5] == 0x68 {
            match dec_addr(b, p + 6) {
            Some((a, q)) => Some((Instruction::Push(a), q)),
            None => None,
        }
        } else if p + 5 <= b.len() && b[p + 1] == 0x63 && b[p + 2] == 0x50 && b[p + 3] == 0x6f && b[p + 4] == 0x70 {
            match dec_addr(b, p + 5) {
            Some((a, q)) => Some((Instruction::Pop(a), q)),
            None => None,
        }
        } else {
            None
        }
    } else {
        if p + 5 <= b.len() && b[p + 0] == 0x64 && b[p + 1] == 0x4e && b[p + 2] == 0x6f && b[p + 3] == 0x4f && b[p + 4] == 0x70 {
            Some((Instruction::NoOp, p + 5))
        } else if p + 5 <= b.len() && b[p + 0] == 0x64 && b[p + 1] == 0x48 && b[p + 2] == 0x61 && b[p + 3] == 0x6c && b[p + 4] == 0x74 {
            Some((Instruction::Halt, p + 5))
        } else if p + 8 <= b.len() && b[p + 0] == 0x67 && b[p + 1] == 0x49 && b[p + 2] == 0x6c && b[p + 3] == 0x6c && b[p + 4] == 0x65 && b[p + 5] == 0x67 && b[p + 6] == 0x61 && b[p + 7] == 0x6c {
            Some((Instruction::Illegal, p + 8))
        } else {
            None
        }
    }
}

/// Parsing an encoded `Zero` finds it again.
#[verifier::spinoff_prover]
#[verifier::rlimit(100)]
proof fn lemma_dec_instr_zero(b: Seq<u8>, p: int, a: Address)
    requires
        0 <= p,
        p + enc_instr(Instruction::Zero(a)).len() <= b.len(),
        b.subrange(p, p + enc_instr(Instruction::Zero(a)).len()) == enc_instr(Instruction::Zero(a)),
    ensures
        dec_instr(b, p) == Some((Instruction::Zero(a), p + enc_instr(Instruction::Zero(a)).len())),
{
    reveal(dec_instr);
    let e = enc_instr(Instruction::Zero(a));
    assert forall|i: int| 0 <= i < e.len() implies #[trigger] b[p + i] == e[i] by {
        assert(b.subrange(p, p + e.len())[i] == e[i]);
    }
    assert(b[p] == e[0]) by {
        assert(b.subrange(p, p + e.len())[0] == e[0]);
    }
    lemma_sub_at(b, p, e, 6, enc_addr(a).len() as int);
    assert(e.subrange(6, 6 + enc_addr(a).len() as int) =~= enc_addr(a));
    lemma_dec_addr(b, p + 6, a);
    assert(dec_addr(b, p + 6) == Some((a, p + e.len())));
}

/// Parsing an encoded `Output` finds it again.
#[verifier::spinoff_prover]
#[verifier::rlimit(100)]
proof fn lemma_dec_instr_output(b: Seq<u8>, p: int, a: Address)
    requires
        0 <= p,
        p + enc_instr(Instruction::Output(a)).len() <= b.len(),
        b.subrange(p, p + enc_instr(Instruction::Output(a)).len()) == enc_instr(Instruction::Output(a)),
    ensures
        dec_instr(b, p) == Some((Instruction::Output(a), p + enc_instr(Instruction::Output(a)).len())),
{
    reveal(dec_instr);
    let e = enc_instr(Instruction::Output(a));
    assert forall|i: int| 0 <= i < e.len() implies #[trigger] b[p + i] == e[i] by {
        assert(b.subrange(p, p + e.len())[i] == e[i]);
    }
    assert(b[p] == e[0]) by {
        assert(b.subrange(p, p + e.len())[0] == e[0]);
    }
    lemma_sub_at(b, p, e, 8, enc_addr(a).len() as int);
    assert(e.subrange(8, 8 + enc_addr(a).len() as int) =~= enc_addr(a));
    lemma_dec_addr(b, p + 8, a);
    assert(dec_addr(b, p + 8) == Some((a, p + e.len())));
}

/// Parsing an encoded `Input` finds it again.
#[verifier::spinoff_prover]
#[verifier::rlimit(100)]
proof fn lemma_dec_instr_input(b: Seq<u8>, p: int, a: Address)
    requires
        0 <= p,
        p + enc_instr(Instruction::Input(a)).len() <= b.len(),
        b.subrange(p, p + enc_instr(Instruction::Input(a)).len()) == enc_instr(Instruction::Input(a)),
    ensures
        dec_instr(b, p) == Some((Instruction::Input(a), p + enc_instr(Instruction::Input(a)).len())),
{
    reveal(dec_instr);
    let e = enc_instr(Instruction::Input(a));
    assert forall|i: int| 0 <= i < e.len() implies #[trigger] b[p + i] == e[i] by {
        assert(b.subrange(p, p + e.len())[i] == e[i]);
    }
    assert(b[p] == e[0]) by {
        assert(b.subrange(p, p + e.len())[0] == e[0]);
    }
    lemma_sub_at(b, p, e, 7, enc_addr(a).len() as int);
    assert(e.subrange(7, 7 + enc_addr(a).len() as int) =~= enc_addr(a));
    lemma_dec_addr(b, p + 7, a);
    assert(dec_addr(b, p + 7) == Some((a, p + e.len())));
}

/// Parsing an encoded `Jump` finds it again.
#[verifier::spinoff_prover]
#[verifier::rlimit(100)]
proof fn lemma_dec_instr_jump(b: Seq<u8>, p: int, a: Address)
    requires
        0 <= p,
        p + enc_instr(Instruction::Jump(a)).len() <= b.len(),
        b.subrange(p, p + enc_instr(Instruction::Jump(a)).len()) == enc_instr(Instruction::Jump(a)),
    ensures
        dec_instr(b, p) == Some((Instruction::Jump(a), p + enc_instr(Instruction::Jump(a)).len())),
{
    reveal(dec_instr);
    let e = enc_instr(Instruction::Jump(a));
    assert forall|i: int| 0 <= i < e.len() implies #[trigger] b[p + i] == e[i] by {
        assert(b.subrange(p, p + e.len())[i] == e[i]);
    }
    assert(b[p] == e[0]) by {
        assert(b.subrange(p, p + e.len())[0] == e[0]);
    }
    lemma_sub_at(b, p, e, 6, enc_addr(a).len() as int);
    assert(e.subrange(6, 6 + enc_addr(a).len() as int) =~= enc_addr(a));
    lemma_dec_addr(b, p + 6, a);
    assert(dec_addr(b, p + 6) == Some((a, p + e.len())));
}

/// Parsing an encoded `Push` finds it again.
#[verifier::spinoff_prover]
#[verifier::rlimit(100)]
proof fn lemma_dec_instr_push(b: Seq<u8>, p: int, a: Address)
    requires
        0 <= p,
        p + enc_instr(Instruction::Push(a)).len() <= b.len(),
        b.subrange(p, p + enc_instr(Instruction::Push(a)).len()) == enc_instr(Instruction::Push(a)),
    ensures
        dec_instr(b, p) == Some((Instruction::Push(a), p + enc_instr(Instruction::Push(a)).len())),
{
    reveal(dec_instr);
    let e = enc_instr(Instruction::Push(a));
    assert forall|i: int| 0 <= i < e.len() implies #[trigger] b[p + i] == e[i] by {
        assert(b.subrange(p, p + e.len())[i] == e[i]);
    }
    assert(b[p] == e[0]) by {
        assert(b.subrange(p, p + e.len())[0] == e[0]);
    }
    lemma_sub_at(b, p, e, 6, enc_addr(a).len() as int);
    assert(e.subrange(6, 6 + enc_addr(a).len() as int) =~= enc_addr(a));
    lemma_dec_addr(b, p + 6, a);
    assert(dec_addr(b, p + 6) == Some((a, p + e.len())));
}

/// Parsing an encoded `Pop` finds it again.
#[verifier::spinoff_prover]
#[verifier::rlimit(100)]
proof fn lemma_dec_instr_pop(b: Seq<u8>, p: int, a: Address)
    requires
        0 <= p,
        p + enc_instr(Instruction::Pop(a)).len() <= b.len(),
        b.subrange(p, p + enc_instr(Instruction::Pop(a)).len()) == enc_instr(Instruction::Pop(a)),
    ensures
        dec_instr(b, p) == Some((Instruction::Pop(a), p + enc_instr(Instruction::Pop(a)).len())),
{
    reveal(dec_instr);
    let e = enc_instr(Instruction::Pop(a));
    assert forall|i: int| 0 <= i < e.len() implies #[trigger] b[p + i] == e[i] by {
        assert(b.subrange(p, p + e.len())[i] == e[i]);
    }
    assert(b[p] == e[0]) by {
        assert(b.subrange(p, p + e.len())[0] == e[0]);
    }
    lemma_sub_at(b, p, e, 5, enc_addr(a).len() as int);
    assert(e.subrange(5, 5 + enc_addr(a).len() as int) =~= enc_addr(a));
    lemma_dec_addr(b, p + 5, a);
    assert(dec_addr(b, p + 5) == Some((a, p + e.len())));
}

/// Parsing an encoded `Move` finds it again.
#[verifier::spinoff_prover]
#[verifier::rlimit(100)]
proof fn lemma_dec_instr_move(b: Seq<u8>, p: int, a1: Address, a2: Address)
    requires
        0 <= p,
        p + enc_instr(Instruction::Move(a1, a2)).len() <= b.len(),
        b.subrange(p, p + enc_instr(Instruction::Move(a1, a2)).len()) == enc_instr(
            Instruction::Move(a1, a2),
        ),
    ensures
        dec_instr(b, p) == Some(
            (Instruction::Move(a1, a2), p + enc_instr(Instruction::Move(a1, a2)).len()),
        ),
{
    reveal(dec_instr);
    let e = enc_instr(Instruction::Move(a1, a2));
    assert forall|i: int| 0 <= i < e.len() implies #[trigger] b[p + i] == e[i] by {
        assert(b.subrange(p, p + e.len())[i] == e[i]);
    }
    assert(b[p] == e[0]) by {
        assert(b.subrange(p, p + e.len())[0] == e[0]);
    }
    lemma_sub_at(b, p, e, 6, enc_two(a1, a2).len() as int);
    assert(e.subrange(6, 6 + enc_two(a1, a2).len() as int) =~= enc_two(a1, a2));
    lemma_dec_two(b, p + 6, a1, a2);
    assert(dec_two(b, p + 6) == Some((a1, a2, p + e.len())));
}

/// Parsing an encoded `Add` finds it again.
#[verifier::spinoff_prover]
#[verifier::rlimit(100)]
proof fn lemma_dec_instr_add(b: Seq<u8>, p: int, a1: Address, a2: Address)
    requires
        0 <= p,
        p + enc_instr(Instruction::Add(a1, a2)).len() <= b.len(),
        b.subrange(p, p + enc_instr(Instruction::Add(a1, a2)).len()) == enc_instr(
            Instruction::Add(a1, a2),
        ),
    ensures
        dec_instr(b, p) == Some(
            (Instruction::Add(a1, a2), p + enc_instr(Instruction::Add(a1, a2)).len()),
        ),
{
    reveal(dec_instr);
    let e = enc_instr(Instruction::Add(a1, a2));
    assert forall|i: int| 0 <= i < e.len() implies #[trigger] b[p + i] == e[i] by {
        assert(b.subrange(p, p + e.len())[i] == e[i]);
    }
    assert(b[p] == e[0]) by {
        assert(b.subrange(p, p + e.len())[0] == e[0]);
    }
    lemma_sub_at(b, p, e, 5, enc_two(a1, a2).len() as int);
    assert(e.subrange(5, 5 + enc_two(a1, a2).len() as int) =~= enc_two(a1, a2));
    lemma_dec_two(b, p + 5, a1, a2);
    assert(dec_two(b, p + 5) == Some((a1, a2, p + e.len())));
}

/// Parsing an encoded `Sub` finds it again.
#[verifier::spinoff_prover]
#[verifier::rlimit(100)]
proof fn lemma_dec_instr_sub(b: Seq<u8>, p: int, a1: Address, a2: Address)
    requires
        0 <= p,
        p + enc_instr(Instruction::Sub(a1, a2)).len() <= b.len(),
        b.subrange(p, p + enc_instr(Instruction::Sub(a1, a2)).len()) == enc_instr(
            Instruction::Sub(a1, a2),
        ),
    ensures
        dec_instr(b, p) == Some(
            (Instruction::Sub(a1, a2), p + enc_instr(Instruction::Sub(a1, a2)).len()),
        ),
{
    reveal(dec_instr);
    let e = enc_instr(Instruction::Sub(a1, a2));
    assert forall|i: int| 0 <= i < e.len() implies #[trigger] b[p + i] == e[i] by {
        assert(b.subrange(p, p + e.len())[i] == e[i]);
    }
    assert(b[p] == e[0]) by {
        assert(b.subrange(p, p + e.len())[0] == e[0]);
    }
    lemma_sub_at(b, p, e, 5, enc_two(a1, a2).len() as int);
    assert(e.subrange(5, 5 + enc_two(a1, a2).len() as int) =~= enc_two(a1, a2));
    lemma_dec_two(b, p + 5, a1, a2);
    assert(dec_two(b, p + 5) == Some((a1, a2, p + e.len())));
}

/// Parsing an encoded `JumpIfZero` finds it again.
#[verifier::spinoff_prover]
#[verifier::rlimit(100)]
proof fn lemma_dec_instr_jumpifzero(b: Seq<u8>, p: int, a1: Address, a2: Address)
    requires
        0 <= p,
        p + enc_instr(Instruction::JumpIfZero(a1, a2)).len() <= b.len(),
        b.subrange(p, p + enc_instr(Instruction::JumpIfZero(a1, a2)).len()) == enc_instr(
            Instruction::JumpIfZero(a1, a2),
        ),
    ensures
        dec_instr(b, p) == Some(
            (Instruction::JumpIfZero(a1, a2), p + enc_instr(Instruction::JumpIfZero(a1, a2)).len()),
        ),
{
    reveal(dec_instr);
    let e = enc_instr(Instruction::JumpIfZero(a1, a2));
    assert forall|i: int| 0 <= i < e.len() implies #[trigger] b[p + i] == e[i] by {
        assert(b.subrange(p, p + e.len())[i] == e[i]);
    }
    assert(b[p] == e[0]) by {
        assert(b.subrange(p, p + e.len())[0] == e[0]);
    }
    lemma_sub_at(b, p, e, 12, enc_two(a1, a2).len() as int);
    assert(e.subrange(12, 12 + enc_two(a1, a2).len() as int) =~= enc_two(a1, a2));
    lemma_dec_two(b, p + 12, a1, a2);
    assert(dec_two(b, p + 12) == Some((a1, a2, p + e.len())));
}

/// Parsing an encoded `JumpNotZero` finds it again.
#[verifier::spinoff_prover]
#[verifier::rlimit(100)]
proof fn lemma_dec_instr_jumpnotzero(b: Seq<u8>, p: int, a1: Address, a2: Address)
    requires
        0 <= p,
        p + enc_instr(Instruction::JumpNotZero(a1, a2)).len() <= b.len(),
        b.subrange(p, p + enc_instr(Instruction::JumpNotZero(a1, a2)).len()) == enc_instr(
            Instruction::JumpNotZero(a1, a2),
        ),
    ensures
        dec_instr(b, p) == Some(
            (Instruction::JumpNotZero(a1, a2), p + enc_instr(Instruction::JumpNotZero(a1, a2)).len()),
        ),
{
    reveal(dec_instr);
    let e = enc_instr(Instruction::JumpNotZero(a1, a2));
    assert forall|i: int| 0 <= i < e.len() implies #[trigger] b[p + i] == e[i] by {
        assert(b.subrange(p, p + e.len())[i] == e[i]);
    }
    assert(b[p] == e[0]) by {
        assert(b.subrange(p, p + e.len())[0] == e[0]);
    }
    lemma_sub_at(b, p, e, 13, enc_two(a1, a2).len() as int);
    assert(e.subrange(13, 13 + enc_two(a1, a2).len() as int) =~= enc_two(a1, a2));
    lemma_dec_two(b, p + 13, a1, a2);
    assert(dec_two(b, p + 13) == Some((a1, a2, p + e.len())));
}

/// Parsing an encoded `NoOp` finds it again.
#[verifier::spinoff_prover]
#[verifier::rlimit(100)]
proof fn lemma_dec_instr_noop(b: Seq<u8>, p: int)
    requires
        0 <= p,
        p + enc_instr(Instruction::NoOp).len() <= b.len(),
        b.subrange(p, p + enc_instr(Instruction::NoOp).len()) == enc_instr(Instruction::NoOp),
    ensures
        dec_instr(b, p) == Some((Instruction::NoOp, p + enc_instr(Instruction::NoOp).len())),
{
    reveal(dec_instr);
    let e = enc_instr(Instruction::NoOp);
    assert forall|i: int| 0 <= i < e.len() implies #[trigger] b[p + i] == e[i] by {
        assert(b.subrange(p, p + e.len())[i] == e[i]);
    }
    assert(b[p] == e[0]) by {
        assert(b.subrange(p, p + e.len())[0] == e[0]);
    }
}

/// Parsing an encoded `Halt` finds it again.
#[verifier::spinoff_prover]
#[verifier::rlimit(100)]
proof fn lemma_dec_instr_halt(b: Seq<u8>, p: int)
    requires
        0 <= p,
        p + enc_instr(Instruction::Halt).len() <= b.len(),
        b.subrange(p, p + enc_instr(Instruction::Halt).len()) == enc_instr(Instruction::Halt),
    ensures
        dec_instr(b, p) == Some((Instruction::Halt, p + enc_instr(Instruction::Halt).len())),
{
    reveal(dec_instr);
    let e = enc_instr(Instruction::Halt);
    assert forall|i: int| 0 <= i < e.len() implies #[trigger] b[p + i] == e[i] by {
        assert(b.subrange(p, p + e.len())[i] == e[i]);
    }
    assert(b[p] == e[0]) by {
        assert(b.subrange(p, p + e.len())[0] == e[0]);
    }
}

/// Parsing an encoded `Illegal` finds it again.
#[verifier::spinoff_prover]
#[verifier::rlimit(100)]
proof fn lemma_dec_instr_illegal(b: Seq<u8>, p: int)
    requires
        0 <= p,
        p + enc_instr(Instruction::Illegal).len() <= b.len(),
        b.subrange(p, p + enc_instr(Instruction::Illegal).len()) == enc_instr(Instruction::Illegal),
    ensures
        dec_instr(b, p) == Some((Instruction::Illegal, p + enc_instr(Instruction::Illegal).len())),
{
    reveal(dec_instr);
    let e = enc_instr(Instruction::Illegal);
    assert forall|i: int| 0 <= i < e.len() implies #[trigger] b[p + i] == e[i] by {
        assert(b.subrange(p, p + e.len())[i] == e[i]);
    }
    assert(b[p] == e[0]) by {
        assert(b.subrange(p, p + e.len())[0] == e[0]);
    }
}

/// Parsing an encoded instruction finds the instruction again.
proof fn lemma_dec_instr(b: Seq<u8>, p: int, i: Instruction)
    requires
        0 <= p,
        p + enc_instr(i).len() <= b.len(),
        b.subrange(p, p + enc_instr(i).len()) == enc_instr(i),
    ensures
        dec_instr(b, p) == Some((i, p + enc_instr(i).len())),
{
    match i {
        Instruction::NoOp => lemma_dec_instr_noop(b, p),
        Instruction::Zero(a) => lemma_dec_instr_zero(b, p, a),
        Instruction::Move(a1, a2) => lemma_dec_instr_move(b, p, a1, a2),
        Instruction::Output(a) => lemma_dec_instr_output(b, p, a),
        Instruction::Input(a) => lemma_dec_instr_input(b, p, a),
        Instruction::Add(a1, a2) => lemma_dec_instr_add(b, p, a1, a2),
        Instruction::Sub(a1, a2) => lemma_dec_instr_sub(b, p, a1, a2),
        Instruction::Jump(a) => lemma_dec_instr_jump(b, p, a),
        Instruction::JumpIfZero(a1, a2) => lemma_dec_instr_jumpifzero(b, p, a1, a2),
        Instruction::JumpNotZero(a1, a2) => lemma_dec_instr_jumpnotzero(b, p, a1, a2),
        Instruction::Push(a) => lemma_dec_instr_push(b, p, a),
        Instruction::Pop(a) => lemma_dec_instr_pop(b, p, a),
        Instruction::Halt => lemma_dec_instr_halt(b, p),
        Instruction::Illegal => lemma_dec_instr_illegal(b, p),
    }
}

/// A sequence of instructions, encoded one after the other.
pub open spec fn enc_instrs(ps: Seq<Instruction>) -> Seq<u8>
    decreases ps.len(),
{
    if ps.len() == 0 {
        Seq::empty()
    } else {
        enc_instr(ps[0]) + enc_instrs(ps.skip(1))
    }
}

/// Appending one instruction to a program appends its encoding.
pub proof fn lemma_enc_instrs_snoc(ps: Seq<Instruction>)
    requires
        ps.len() > 0,
    ensures
        enc_instrs(ps) == enc_instrs(ps.drop_last()) + enc_instr(ps.last()),
    decreases ps.len(),
{
    if ps.len() == 1 {
        assert(ps.drop_last() =~= Seq::<Instruction>::empty());
        assert(ps.skip(1) =~= Seq::<Instruction>::empty());
        assert(enc_instrs(ps) =~= enc_instrs(ps.drop_last()) + enc_instr(ps.last()));
    } else {
        lemma_enc_instrs_snoc(ps.skip(1));
        assert(ps.skip(1).drop_last() =~= ps.drop_last().skip(1));
        assert(ps.skip(1).last() == ps.last());
        assert(enc_instrs(ps.drop_last()) == enc_instr(ps[0]) + enc_instrs(
            ps.drop_last().skip(1),
        ));
        assert(enc_instrs(ps) =~= enc_instrs(ps.drop_last()) + enc_instr(ps.last()));
    }
}

/// A program: a CBOR array of its instructions.
pub open spec fn enc_program(ps: Seq<Instruction>) -> Seq<u8>
    recommends
        ps.len() <= u64::MAX,
{
    hdr(4, ps.len() as u64) + enc_instrs(ps)
}

/// Parse `n` consecutive instructions starting at `p`.
pub open spec fn dec_instrs(b: Seq<u8>, p: int, n: nat) -> Option<(Seq<Instruction>, int)>
    decreases n,
{
    if n == 0 {
        Some((Seq::empty(), p))
    } else {
        match dec_instr(b, p) {
            None => None,
            Some((i, q)) => match dec_instrs(b, q, (n - 1) as nat) {
                None => None,
                Some((rest, e)) => Some((seq![i] + rest, e)),
            },
        }
    }
}

/// Parse a whole program: a CBOR array of instructions with nothing left
/// over.
pub open spec fn dec_program(b: Seq<u8>) -> Option<Seq<Instruction>> {
    match dec_hdr(b, 0) {
        None => None,
        Some((m, n, p)) => if m != 4 {
            None
        } else {
            match dec_instrs(b, p, n as nat) {
                None => None,
                Some((ps, e)) => if e == b.len() {
                    Some(ps)
                } else {
                    None
                },
            }
        },
    }
}

/// Parsing an encoded instruction sequence finds every instruction again.
proof fn lemma_dec_instrs(b: Seq<u8>, p: int, ps: Seq<Instruction>)
    requires
        0 <= p,
        p + enc_instrs(ps).len() <= b.len(),
        b.subrange(p, p + enc_instrs(ps).len()) == enc_instrs(ps),
    ensures
        dec_instrs(b, p, ps.len()) == Some((ps, p + enc_instrs(ps).len())),
    decreases ps.len(),
{
    if ps.len() > 0 {
        let e = enc_instrs(ps);
        let l0 = enc_instr(ps[0]).len() as int;
        lemma_sub_at(b, p, e, 0, l0);
        assert(e.subrange(0, l0) =~= enc_instr(ps[0]));
        lemma_dec_instr(b, p, ps[0]);
        lemma_sub_at(b, p, e, l0, enc_instrs(ps.skip(1)).len() as int);
        assert(e.subrange(l0, l0 + enc_instrs(ps.skip(1)).len() as int) =~= enc_instrs(ps.skip(1)));
        lemma_dec_instrs(b, p + l0, ps.skip(1));
        assert(seq![ps[0]] + ps.skip(1) =~= ps);
    }
}

/// Serialization round trip: decoding an encoded program gives the
/// program back, exactly, for every program.
pub proof fn lemma_program_round_trip(ps: Seq<Instruction>)
    requires
        ps.len() <= u64::MAX,
    ensures
        dec_program(enc_program(ps)) == Some(ps),
{
    let b = enc_program(ps);
    let n = ps.len() as u64;
    let hl = hdr(4, n).len() as int;
    assert(b.subrange(0, hl) =~= hdr(4, n));
    lemma_dec_hdr(b, 0, 4, n);
    assert(b.subrange(hl, hl + enc_instrs(ps).len() as int) =~= enc_instrs(ps));
    lemma_dec_instrs(b, hl, ps);
}

/// Append a CBOR item header for `major` with value `v`.
fn push_hdr(out: &mut Vec<u8>, major: u8, v: u64)
    requires
        major < 8,
    ensures
        final(out)@ == old(out)@ + hdr(major, v),
{
    let base = major << 5u8;
    if v < 24 {
        out.push(base | (v as u8));
    } else if v < 0x100 {
        out.push(base | 24);
        out.push(v as u8);
    } else if v < 0x1_0000 {
        out.push(base | 25);
        out.push((v >> 8) as u8);
        out.push(v as u8);
    } else if v < 0x1_0000_0000 {
        out.push(base | 26);
        out.push((v >> 24) as u8);
        out.push((v >> 16) as u8);
        out.push((v >> 8) as u8);
        out.push(v as u8);
    } else {
        out.push(base | 27);
        out.push((v >> 56) as u8);
        out.push((v >> 48) as u8);
        out.push((v >> 40) as u8);
        out.push((v >> 32) as u8);
        out.push((v >> 24) as u8);
        out.push((v >> 16) as u8);
        out.push((v >> 8) as u8);
        out.push(v as u8);
    }
    proof {
        assert(out@ =~= old(out)@ + hdr(major, v));
    }
}

/// Append a register's name as a text string.
fn push_reg(out: &mut Vec<u8>, r: Register)
    ensures
        final(out)@ == old(out)@ + enc_reg(r),
{
    let (c1, c2): (u8, u8) = match r {
        Register::R0 => (0x52, 0x30),
        Register::R1 => (0x52, 0x31),
        Register::R2 => (0x52, 0x32),
        Register::R3 => (0x52, 0x33),
        Register::R4 => (0x52, 0x34),
        Register::R5 => (0x52, 0x35),
        Register::R6 => (0x52, 0x36),
        Register::R7 => (0x52, 0x37),
        Register::SP => (0x53, 0x50),
        Register::BP => (0x42, 0x50),
    };
    out.push(0x62);
    out.push(c1);
    out.push(c2);
    proof {
        assert(out@ =~= old(out)@ + enc_reg(r));
    }
}

/// Append an address: a single-entry map from its variant name to its
/// payload.
fn push_addr(out: &mut Vec<u8>, a: Address)
    ensures
        final(out)@ == old(out)@ + enc_addr(a),
{
    match a {
        Address::RegAbs(r) => {
            out.push(0xa1);
            out.push(0x66);
            out.push(0x52);
            out.push(0x65);
            out.push(0x67);
            out.push(0x41);
            out.push(0x62);
            out.push(0x73);
            push_reg(out, r);
        },
        Address::MemAbs(w) => {
            out.push(0xa1);
            out.push(0x66);
            out.push(0x4d);
            out.push(0x65);
            out.push(0x6d);
            out.push(0x41);
            out.push(0x62);
            out.push(0x73);
            push_hdr(out, 0, w);
        },
        Address::MemReg(r) => {
            out.push(0xa1);
            out.push(0x66);
            out.push(0x4d);
            out.push(0x65);
            out.push(0x6d);
            out.push(0x52);
            out.push(0x65);
            out.push(0x67);
            push_reg(out, r);
        },
        Address::Literal(w) => {
            out.push(0xa1);
            out.push(0x67);
            out.push(0x4c);
            out.push(0x69);
            out.push(0x74);
            out.push(0x65);
            out.push(0x72);
            out.push(0x61);
            out.push(0x6c);
            push_hdr(out, 0, w);
        },
    }
    proof {
        assert(out@ =~= old(out)@ + enc_addr(a));
    }
}

/// Append one instruction.
fn push_instr(out: &mut Vec<u8>, i: Instruction)
    ensures
        final(out)@ == old(out)@ + enc_instr(i),
{
    match i {
        Instruction::NoOp => {
            out.push(0x64);
            out.push(0x4e);
            out.push(0x6f);
            out.push(0x4f);
            out.push(0x70);
        },
        Instruction::Halt => {
            out.push(0x64);
            out.push(0x48);
            out.push(0x61);
            out.push(0x6c);
            out.push(0x74);
        },
        Instruction::Illegal => {
            out.push(0x67);
            out.push(0x49);
            out.push(0x6c);
            out.push(0x6c);
            out.push(0x65);
            out.push(0x67);
            out.push(0x61);
            out.push(0x6c);
        },
        Instruction::Zero(a) => {
            out.push(0xa1);
            out.push(0x64);
            out.push(0x5a);
            out.push(0x65);
            out.push(0x72);
            out.push(0x6f);
            push_addr(out, a);
        },
        Instruction::Output(a) => {
            out.push(0xa1);
            out.push(0x66);
            out.push(0x4f);
            out.push(0x75);
            out.push(0x74);
            out.push(0x70);
            out.push(0x75);
            out.push(0x74);
            push_addr(out, a);
        },
        Instruction::Input(a) => {
            out.push(0xa1);
            out.push(0x65);
            out.push(0x49);
            out.push(0x6e);
            out.push(0x70);
            out.push(0x75);
            out.push(0x74);
            push_addr(out, a);
        },
        Instruction::Jump(a) => {
            out.push(0xa1);
            out.push(0x64);
            out.push(0x4a);
            out.push(0x75);
            out.push(0x6d);
            out.push(0x70);
            push_addr(out, a);
        },
        Instruction::Push(a) => {
            out.push(0xa1);
            out.push(0x64);
            out.push(0x50);
            out.push(0x75);
            out.push(0x73);
            out.push(0x68);
            push_addr(out, a);
        },
        Instruction::Pop(a) => {
            out.push(0xa1);
            out.push(0x63);
            out.push(0x50);
            out.push(0x6f);
            out.push(0x70);
            push_addr(out, a);
        },
        Instruction::Move(a, a2) => {
            out.push(0xa1);
            out.push(0x64);
            out.push(0x4d);
            out.push(0x6f);
            out.push(0x76);
            out.push(0x65);
            out.push(0x82);
            push_addr(out, a);
            push_addr(out, a2);
        },
        Instruction::Add(a, a2) => {
            out.push(0xa1);
            out.push(0x63);
            out.push(0x41);
            out.push(0x64);
            out.push(0x64);
            out.push(0x82);
            push_addr(out, a);
            push_addr(out, a2);
        },
        Instruction::Sub(a, a2) => {
            out.push(0xa1);
            out.push(0x63);
            out.push(0x53);
            out.push(0x75);
            out.push(0x62);
            out.push(0x82);
            push_addr(out, a);
            push_addr(out, a2);
        },
        Instruction::JumpIfZero(a, a2) => {
            out.push(0xa1);
            out.push(0x6a);
            out.push(0x4a);
            out.push(0x75);
            out.push(0x6d);
            out.push(0x70);
            out.push(0x49);
            out.push(0x66);
            out.push(0x5a);
            out.push(0x65);
            out.push(0x72);
            out.push(0x6f);
            out.push(0x82);
            push_addr(out, a);
            push_addr(out, a2);
        },
        Instruction::JumpNotZero(a, a2) => {
            out.push(0xa1);
            out.push(0x6b);
            out.push(0x4a);
            out.push(0x75);
            out.push(0x6d);
            out.push(0x70);
            out.push(0x4e);
            out.push(0x6f);
            out.push(0x74);
            out.push(0x5a);
            out.push(0x65);
            out.push(0x72);
            out.push(0x6f);
            out.push(0x82);
            push_addr(out, a);
            push_addr(out, a2);
        },
    }
    proof {
        assert(out@ =~= old(out)@ + enc_instr(i));
    }
}

/// Encode a program into its canonical serialized form.
pub fn encode_program(p: &Vec<Instruction>) -> (r: Vec<u8>)
    ensures
        r@ == enc_program(p@),
{
    let mut out: Vec<u8> = Vec::new();
    push_hdr(&mut out, 4, p.len() as u64);
    proof {
        assert(out@ =~= hdr(4, p@.len() as u64) + enc_instrs(p@.take(0)));
    }
    let mut i: usize = 0;
    while i < p.len()
        invariant
            i <= p@.len(),
            out@ == hdr(4, p@.len() as u64) + enc_instrs(p@.take(i as int)),
        decreases p.len() - i,
    {
        push_instr(&mut out, p[i]);
        i = i + 1;
        proof {
            lemma_enc_instrs_snoc(p@.take(i as int));
            assert(p@.take(i as int).drop_last() =~= p@.take(i as int - 1));
            assert(p@.take(i as int).last() == p@[i as int - 1]);
            assert(out@ =~= hdr(4, p@.len() as u64) + enc_instrs(p@.take(i as int)));
        }
    }
    proof {
        assert(p@.take(p@.len() as int) =~= p@);
    }
    out
}

/// Parse a CBOR item header.
fn decode_hdr(b: &Vec<u8>, p: usize) -> (r: Option<(u8, u64, usize)>)
    ensures
        dec_hdr(b@, p as int) == (match r {
            None => None::<(u8, u64, int)>,
            Some((m, v, q)) => Some((m, v, q as int)),
        }),
        r matches Some((m, v, q)) ==> q <= b@.len(),
{
    proof {
        reveal(dec_hdr);
    }
    if p >= b.len() {
        return None;
    }
    let ib = b[p];
    let major = ib >> 5u8;
    let low = ib & 0x1f;
    if low < 24 {
        Some((major, low as u64, p + 1))
    } else if low == 24 {
        if b.len() - p >= 2 {
            Some((major, b[p + 1] as u64, p + 2))
        } else {
            None
        }
    } else if low == 25 {
        if b.len() - p >= 3 {
            Some((major, ((b[p + 1] as u64) << 8u64) | (b[p + 2] as u64), p + 3))
        } else {
            None
        }
    } else if low == 26 {
        if b.len() - p >= 5 {
            Some(
                (
                    major,
                    ((b[p + 1] as u64) << 24u64) | ((b[p + 2] as u64) << 16u64) | ((b[p
                        + 3] as u64) << 8u64) | (b[p + 4] as u64),
                    p + 5,
                ),
            )
        } else {
            None
        }
    } else if low == 27 {
        if b.len() - p >= 9 {
            let v = ((b[p + 1] as u64) << 56u64) | ((b[p + 2] as u64) << 48u64) | ((b[p
                + 3] as u64) << 40u64) | ((b[p + 4] as u64) << 32u64) | ((b[p + 5] as u64)
                << 24u64) | ((b[p + 6] as u64) << 16u64) | ((b[p + 7] as u64) << 8u64) | (b[p
                + 8] as u64);
            proof {
                let s = b@.subrange(p as int + 1, p as int + 9);
                assert(s[0] == b@[p as int + 1] && s[1] == b@[p as int + 2] && s[2] == b@[p as int
                    + 3] && s[3] == b@[p as int + 4] && s[4] == b@[p as int + 5] && s[5] == b@[
                p as int + 6] && s[6] == b@[p as int + 7] && s[7] == b@[p as int + 8]);
                assert(v == be_word(s));
            }
            Some((major, v, p + 9))
        } else {
            None
        }
    } else {
        None
    }
}

/// Parse a register name.
fn decode_reg(b: &Vec<u8>, p: usize) -> (r: Option<(Register, usize)>)
    ensures
        dec_reg(b@, p as int) == (match r {
            None => None::<(Register, int)>,
            Some((rr, q)) => Some((rr, q as int)),
        }),
        r matches Some((rr, q)) ==> q <= b@.len(),
{
    proof {
        reveal(dec_reg);
    }
    if p >= b.len() || b.len() - p < 3 {
        return None;
    }
    if b[p] != 0x62 {
        return None;
    }
    let c1 = b[p + 1];
    let c2 = b[p + 2];
    if c1 == 0x52 && c2 == 0x30 {
        Some((Register::R0, p + 3))
    } else if c1 == 0x52 && c2 == 0x31 {
        Some((Register::R1, p + 3))
    } else if c1 == 0x52 && c2 == 0x32 {
        Some((Register::R2, p + 3))
    } else if c1 == 0x52 && c2 == 0x33 {
        Some((Register::R3, p + 3))
    } else if c1 == 0x52 && c2 == 0x34 {
        Some((Register::R4, p + 3))
    } else if c1 == 0x52 && c2 == 0x35 {
        Some((Register::R5, p + 3))
    } else if c1 == 0x52 && c2 == 0x36 {
        Some((Register::R6, p + 3))
    } else if c1 == 0x52 && c2 == 0x37 {
        Some((Register::R7, p + 3))
    } else if c1 == 0x53 && c2 == 0x50 {
        Some((Register::SP, p + 3))
    } else if c1 == 0x42 && c2 == 0x50 {
        Some((Register::BP, p + 3))
    } else {
        None
    }
}

/// Parse an address.
fn decode_addr(b: &Vec<u8>, p: usize) -> (r: Option<(Address, usize)>)
    ensures
        dec_addr(b@, p as int) == (match r {
            None => None::<(Address, int)>,
            Some((a, q)) => Some((a, q as int)),
        }),
        r matches Some((a, q)) ==> q <= b@.len(),
{
    proof {
        reveal(dec_addr);
    }
    if p >= b.len() || b[p] != 0xa1 {
        return None;
    }
    if b.len() - p >= 8 && b[p + 1] == 0x66 && b[p + 2] == 0x52 && b[p + 3] == 0x65 && b[p + 4] == 0x67 && b[p + 5] == 0x41 && b[p + 6] == 0x62 && b[p + 7] == 0x73 {
        match decode_reg(b, p + 8) {
            Some((r2, q)) => Some((Address::RegAbs(r2), q)),
            None => None,
        }
    } else if b.len() - p >= 8 && b[p + 1] == 0x66 && b[p + 2] == 0x4d && b[p + 3] == 0x65 && b[p + 4] == 0x6d && b[p + 5] == 0x41 && b[p + 6] == 0x62 && b[p + 7] == 0x73 {
        match decode_hdr(b, p + 8) {
            Some((m, v, q)) => if m == 0 {
                Some((Address::MemAbs(v), q))
            } else {
                None
            },
            None => None,
        }
    } else if b.len() - p >= 8 && b[p + 1] == 0x66 && b[p + 2] == 0x4d && b[p + 3] == 0x65 && b[p + 4] == 0x6d && b[p + 5] == 0x52 && b[p + 6] == 0x65 && b[p + 7] == 0x67 {
        match decode_reg(b, p + 8) {
            Some((r2, q)) => Some((Address::MemReg(r2), q)),
            None => None,
        }
    } else if b.len() - p >= 9 && b[p + 1] == 0x67 && b[p + 2] == 0x4c && b[p + 3] == 0x69 && b[p + 4] == 0x74 && b[p + 5] == 0x65 && b[p + 6] == 0x72 && b[p + 7] == 0x61 && b[p + 8] == 0x6c {
        match decode_hdr(b, p + 9) {
            Some((m, v, q)) => if m == 0 {
                Some((Address::Literal(v), q))
            } else {
                None
            },
            None => None,
        }
    } else {
        None
    }
}

/// Parse a two-address payload.
fn decode_two(b: &Vec<u8>, p: usize) -> (r: Option<(Address, Address, usize)>)
    ensures
        dec_two(b@, p as int) == (match r {
            None => None::<(Address, Address, int)>,
            Some((a1, a2, q)) => Some((a1, a2, q as int)),
        }),
        r matches Some((a1, a2, q)) ==> q <= b@.len(),
{
    proof {
        reveal(dec_two);
    }
    if p >= b.len() || b[p] != 0x82 {
        return None;
    }
    match decode_addr(b, p + 1) {
        None => None,
        Some((a1, q1)) => match decode_addr(b, q1) {
            None => None,
            Some((a2, q2)) => Some((a1, a2, q2)),
        },
    }
}

/// Parse one instruction.
fn decode_instr(b: &Vec<u8>, p: usize) -> (r: Option<(Instruction, usize)>)
    ensures
        dec_instr(b@, p as int) == (match r {
            None => None::<(Instruction, int)>,
            Some((i, q)) => Some((i, q as int)),
        }),
        r matches Some((i, q)) ==> q <= b@.len(),
{
    proof {
        reveal(dec_instr);
    }
    if p >= b.len() {
        return None;
    }
    if b[p] == 0xa1 {
        if b.len() - p >= 6 && b[p + 1] == 0x64 && b[p + 2] == 0x5a && b[p + 3] == 0x65 && b[p + 4] == 0x72 && b[p + 5] == 0x6f {
        match decode_addr(b, p + 6) {
            Some((a, q)) => Some((Instruction::Zero(a), q)),
            None => None,
        }
    } else if b.len() - p >= 6 && b[p + 1] == 0x64 && b[p + 2] == 0x4d && b[p + 3] == 0x6f && b[p + 4] == 0x76 && b[p + 5] == 0x65 {
        match decode_two(b, p + 6) {
            Some((a, a2, q)) => Some((Instruction::Move(a, a2), q)),
            None => None,
        }
    } else if b.len() - p >= 8 && b[p + 1] == 0x66 && b[p + 2] == 0x4f && b[p + 3] == 0x75 && b[p + 4] == 0x74 && b[p + 5] == 0x70 && b[p + 6] == 0x75 && b[p + 7] == 0x74 {
        match decode_addr(b, p + 8) {
            Some((a, q)) => Some((Instruction::Output(a), q)),
            None => None,
        }
    } else if b.len() - p >= 7 && b[p + 1] == 0x65 && b[p + 2] == 0x49 && b[p + 3] == 0x6e && b[p + 4] == 0x70 && b[p + 5] == 0x75 && b[p + 6] == 0x74 {
        match decode_addr(b, p + 7) {
            Some((a, q)) => Some((Instruction::Input(a), q)),
            None => None,
        }
    } else if b.len() - p >= 5 && b[p + 1] == 0x63 && b[p + 2] == 0x41 && b[p + 3] == 0x64 && b[p + 4] == 0x64 {
        match decode_two(b, p + 5) {
            Some((a, a2, q)) => Some((Instruction::Add(a, a2), q)),
            None => None,
        }
    } else if b.len() - p >= 5 && b[p + 1] == 0x63 && b[p + 2] == 0x53 && b[p + 3] == 0x75 && b[p + 4] == 0x62 {
        match decode_two(b, p + 5) {
            Some((a, a2, q)) => Some((Instruction::Sub(a, a2), q)),
            None => None,
        }
    } else if b.len() - p >= 6 && b[p + 1] == 0x64 && b[p + 2] == 0x4a && b[p + 3] == 0x75 && b[p + 4] == 0x6d && b[p + 5] == 0x70 {
        match decode_addr(b, p + 6) {
            Some((a, q)) => Some((Instruction::Jump(a), q)),
            None => None,
        }
    } else if b.len() - p >= 12 && b[p + 1] == 0x6a && b[p + 2] == 0x4a && b[p + 3] == 0x75 && b[p + 4] == 0x6d && b[p + 5] == 0x70 && b[p + 6] == 0x49 && b[p + 7] == 0x66 && b[p + 8] == 0x5a && b[p + 9] == 0x65 && b[p + 10] == 0x72 && b[p + 11] == 0x6f {
        match decode_two(b, p + 12) {
            Some((a, a2, q)) => Some((Instruction::JumpIfZero(a, a2), q)),
            None => None,
        }
    } else if b.len() - p >= 13 && b[p + 1] == 0x6b && b[p + 2] == 0x4a && b[p + 3] == 0x75 && b[p + 4] == 0x6d && b[p + 5] == 0x70 && b[p + 6] == 0x4e && b[p + 7] == 0x6f && b[p + 8] == 0x74 && b[p + 9] == 0x5a && b[p + 10] == 0x65 && b[p + 11] == 0x72 && b[p + 12] == 0x6f {
        match decode_two(b, p + 13) {
            Some((a, a2, q)) => Some((Instruction::JumpNotZero(a, a2), q)),
            None => None,
        }
    } else if b.len() - p >= 6 && b[p + 1] == 0x64 && b[p + 2] == 0x50 && b[p + 3] == 0x75 && b[p + 4] == 0x73 && b[p + 5] == 0x68 {
        match decode_addr(b, p + 6) {
            Some((a, q)) => Some((Instruction::Push(a), q)),
            None => None,
        }
    } else if b.len() - p >= 5 && b[p + 1] == 0x63 && b[p + 2] == 0x50 && b[p + 3] == 0x6f && b[p + 4] == 0x70 {
        match decode_addr(b, p + 5) {
            Some((a, q)) => Some((Instruction::Pop(a), q)),
            None => None,
        }
    } else {
            None
        }
    } else {
        if b.len() - p >= 5 && b[p + 0] == 0x64 && b[p + 1] == 0x4e && b[p + 2] == 0x6f && b[p + 3] == 0x4f && b[p + 4] == 0x70 {
        Some((Instruction::NoOp, p + 5))
    } else if b.len() - p >= 5 && b[p + 0] == 0x64 && b[p + 1] == 0x48 && b[p + 2] == 0x61 && b[p + 3] == 0x6c && b[p + 4] == 0x74 {
        Some((Instruction::Halt, p + 5))
    } else if b.len() - p >= 8 && b[p + 0] == 0x67 && b[p + 1] == 0x49 && b[p + 2] == 0x6c && b[p + 3] == 0x6c && b[p + 4] == 0x65 && b[p + 5] == 0x67 && b[p + 6] == 0x61 && b[p + 7] == 0x6c {
        Some((Instruction::Illegal, p + 8))
    } else {
            None
        }
    }
}

/// Decode a program from its canonical serialized form.  `None` is
/// returned when the bytes are not the encoding of a program.
pub fn decode_program(b: &Vec<u8>) -> (r: Option<Vec<Instruction>>)
    ensures
        dec_program(b@) == (match r {
            None => None::<Seq<Instruction>>,
            Some(v) => Some(v@),
        }),
{
    let h = decode_hdr(b, 0);
    match h {
        None => None,
        Some((m, n, p0)) => {
            if m != 4 {
                return None;
            }
            let mut out: Vec<Instruction> = Vec::new();
            let mut pos: usize = p0;
            let mut k: u64 = 0;
            proof {
                assert(out@ + Seq::<Instruction>::empty() =~= out@);
            }
            while k < n
                invariant
                    dec_hdr(b@, 0) == Some((4u8, n, p0 as int)),
                    pos <= b@.len(),
                    k <= n,
                    (match dec_instrs(b@, pos as int, (n - k) as nat) {
                        None => dec_instrs(b@, p0 as int, n as nat) is None,
                        Some((rest, e)) => dec_instrs(b@, p0 as int, n as nat) == Some(
                            (out@ + rest, e),
                        ),
                    }),
                decreases n - k,
            {
                match decode_instr(b, pos) {
                    None => {
                        return None;
                    },
                    Some((ins, q)) => {
                        proof {
                            let rest0 = dec_instrs(b@, q as int, (n - k - 1) as nat);
                            if rest0 is Some {
                                assert((out@ + (seq![ins] + rest0.unwrap().0)) =~= (out@.push(ins)
                                    + rest0.unwrap().0));
                            }
                        }
                        out.push(ins);
                        pos = q;
                        k = k + 1;
                    },
                }
            }
            proof {
                assert(out@ + Seq::<Instruction>::empty() =~= out@);
            }
            if pos == b.len() {
                Some(out)
            } else {
                None
            }
        },
    }
}

} // verus!
