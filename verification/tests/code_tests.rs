use monkey::code::OpCode;
use monkey::code::convert_two_u8s_be_to_usize;
use monkey::code::make_op;

#[test]
fn make_op_constant() {
    assert_eq!(vec![0x01, 255, 254], make_op(OpCode::OpConstant(65534)));
}

#[test]
fn make_op_pop() {
    assert_eq!(vec![0x02], make_op(OpCode::OpPop));
}

#[test]
fn make_op_add() {
    assert_eq!(vec![0x03], make_op(OpCode::OpAdd));
}

#[test]
fn make_op_tags() {
    assert_eq!(vec![0x04], make_op(OpCode::OpSub));
    assert_eq!(vec![0x05], make_op(OpCode::OpMul));
    assert_eq!(vec![0x06], make_op(OpCode::OpDiv));
    assert_eq!(vec![0x07], make_op(OpCode::OpTrue));
    assert_eq!(vec![0x08], make_op(OpCode::OpFalse));
    assert_eq!(vec![0x09], make_op(OpCode::OpEquals));
    assert_eq!(vec![0x0A], make_op(OpCode::OpNotEquals));
    assert_eq!(vec![0x0B], make_op(OpCode::OpGreaterThan));
    assert_eq!(vec![0x0C], make_op(OpCode::OpMinus));
    assert_eq!(vec![0x0D], make_op(OpCode::OpBang));
    assert_eq!(vec![0x0E, 0x27, 0x0F], make_op(OpCode::OpJumpNotTrue(9999)));
    assert_eq!(vec![0x0F, 0x00, 0x07], make_op(OpCode::OpJump(7)));
    assert_eq!(vec![0x10, 0x00, 0x00], make_op(OpCode::OpSetGlobal(0)));
    assert_eq!(vec![0x11, 0x00, 0x01], make_op(OpCode::OpGetGlobal(1)));
}

#[test]
fn operand_round_trip() {
    for v in [0u16, 1, 255, 256, 4660, 40000, 65534, 65535] {
        let bytes = make_op(OpCode::OpConstant(v));
        assert_eq!(3, bytes.len());
        assert_eq!(v as usize, convert_two_u8s_be_to_usize(bytes[1], bytes[2]));
    }
}
