//! Instruction codec: the closed opcode set and its byte-level encoding.
//!
//! Every instruction starts with a one-byte tag, optionally followed by a
//! two-byte big-endian operand (a constant-pool index, a jump target byte
//! offset, or a global slot index).

use vstd::prelude::*;

verus! {

/// The closed set of stack-machine instructions.
#[derive(Debug, Clone, Copy, PartialEq, Eq, Structural)]
pub enum OpCode {
    /// Push constant-pool[operand].
    OpConstant(u16),
    /// Discard the top of the stack.
    OpPop,
    OpAdd,
    OpSub,
    OpMul,
    OpDiv,
    OpTrue,
    OpFalse,
    OpEquals,
    OpNotEquals,
    OpGreaterThan,
    /// Unary arithmetic negation.
    OpMinus,
    /// Unary boolean negation.
    OpBang,
    /// Jump to the operand byte offset when the popped value is not `true`.
    OpJumpNotTrue(u16),
    /// Jump unconditionally to the operand byte offset.
    OpJump(u16),
    /// Pop one value and store it into the operand global slot.
    OpSetGlobal(u16),
    /// Push a copy of the operand global slot.
    OpGetGlobal(u16),
}

/// High byte of a 16-bit operand, as written on the wire.
pub open spec fn spec_operand_hi(v: u16) -> u8 {
    (v / 256) as u8
}

/// Low byte of a 16-bit operand, as written on the wire.
pub open spec fn spec_operand_lo(v: u16) -> u8 {
    (v % 256) as u8
}

/// The unsigned 16-bit value carried by two big-endian operand bytes.
pub open spec fn spec_decode_operand(hi: u8, lo: u8) -> usize {
    (hi * 256 + lo) as usize
}

/// The exact byte encoding of one instruction.
pub open spec fn spec_make_op(op: OpCode) -> Seq<u8> {
    match op {
        OpCode::OpConstant(arg) => seq![0x01u8, spec_operand_hi(arg), spec_operand_lo(arg)],
        OpCode::OpPop => seq![0x02u8],
        OpCode::OpAdd => seq![0x03u8],
        OpCode::OpSub => seq![0x04u8],
        OpCode::OpMul => seq![0x05u8],
        OpCode::OpDiv => seq![0x06u8],
        OpCode::OpTrue => seq![0x07u8],
        OpCode::OpFalse => seq![0x08u8],
        OpCode::OpEquals => seq![0x09u8],
        OpCode::OpNotEquals => seq![0x0Au8],
        OpCode::OpGreaterThan => seq![0x0Bu8],
        OpCode::OpMinus => seq![0x0Cu8],
        OpCode::OpBang => seq![0x0Du8],
        OpCode::OpJumpNotTrue(address) => seq![
            0x0Eu8,
            spec_operand_hi(address),
            spec_operand_lo(address),
        ],
        OpCode::OpJump(address) => seq![0x0Fu8, spec_operand_hi(address), spec_operand_lo(address)],
        OpCode::OpSetGlobal(global_id) => seq![
            0x10u8,
            spec_operand_hi(global_id),
            spec_operand_lo(global_id),
        ],
        OpCode::OpGetGlobal(global_id) => seq![
            0x11u8,
            spec_operand_hi(global_id),
            spec_operand_lo(global_id),
        ],
    }
}

/// Split a 16-bit operand into its two big-endian wire bytes.
fn convert_u16_to_two_u8s_be(integer: u16) -> (r: [u8; 2])
    ensures
        r@ == seq![spec_operand_hi(integer), spec_operand_lo(integer)],
{
    let r = [(integer / 256) as u8, (integer % 256) as u8];
    proof {
        assert(r@ =~= seq![spec_operand_hi(integer), spec_operand_lo(integer)]);
    }
    r
}

/// Reconstruct the unsigned 16-bit value carried by two big-endian bytes.
pub fn convert_two_u8s_be_to_usize(int1: u8, int2: u8) -> (r: usize)
    ensures
        r == spec_decode_operand(int1, int2),
{
    (int1 as usize) * 256 + (int2 as usize)
}

/// A one-byte instruction.
fn encode_plain(tag: u8) -> (r: Vec<u8>)
    ensures
        r@ == seq![tag],
{
    let mut output: Vec<u8> = Vec::new();
    output.push(tag);
    proof {
        assert(output@ =~= seq![tag]);
    }
    output
}

/// A three-byte instruction: tag, then the big-endian operand.
fn encode_with_operand(tag: u8, operand: u16) -> (r: Vec<u8>)
    ensures
        r@ == seq![tag, spec_operand_hi(operand), spec_operand_lo(operand)],
{
    let mut output: Vec<u8> = Vec::new();
    output.push(tag);
    let bytes = convert_u16_to_two_u8s_be(operand);
    output.push(bytes[0]);
    output.push(bytes[1]);
    proof {
        assert(output@ =~= seq![tag, spec_operand_hi(operand), spec_operand_lo(operand)]);
    }
    output
}

/// Encode one instruction into its exact wire bytes.
pub fn make_op(op: OpCode) -> (r: Vec<u8>)
    ensures
        r@ == spec_make_op(op),
{
    match op {
        OpCode::OpConstant(arg) => encode_with_operand(0x01, arg),
        OpCode::OpPop => encode_plain(0x02),
        OpCode::OpAdd => encode_plain(0x03),
        OpCode::OpSub => encode_plain(0x04),
        OpCode::OpMul => encode_plain(0x05),
        OpCode::OpDiv => encode_plain(0x06),
        OpCode::OpTrue => encode_plain(0x07),
        OpCode::OpFalse => encode_plain(0x08),
        OpCode::OpEquals => encode_plain(0x09),
        OpCode::OpNotEquals => encode_plain(0x0A),
        OpCode::OpGreaterThan => encode_plain(0x0B),
        OpCode::OpMinus => encode_plain(0x0C),
        OpCode::OpBang => encode_plain(0x0D),
        OpCode::OpJumpNotTrue(address) => encode_with_operand(0x0E, address),
        OpCode::OpJump(address) => encode_with_operand(0x0F, address),
        OpCode::OpSetGlobal(global_id) => encode_with_operand(0x10, global_id),
        OpCode::OpGetGlobal(global_id) => encode_with_operand(0x11, global_id),
    }
}

/// Encoding a 16-bit operand into its two big-endian bytes and decoding those
/// bytes returns the operand exactly, over the whole `0..=65535` range.
pub proof fn lemma_operand_round_trip(v: u16)
    ensures
        spec_decode_operand(spec_operand_hi(v), spec_operand_lo(v)) == v as usize,
{
}

} // verus!
