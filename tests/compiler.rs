use jas::common::{IntermediateCode, Token, TokenType};
use jas::compiler::{
    Instruction, InstructionAddSubtract, InstructionCall, InstructionCompare, InstructionInterrupt,
    InstructionJump, InstructionJumpIf, InstructionMove, InstructionMoveModRM,
    InstructionMultiply, InstructionPop, InstructionPush, InstructionPushModRM, InstructionReturn,
};

#[test]
fn test_calc_modrm() {
    let i = InstructionJump {
        operation: &Token {
            t: None,
            value: "".to_string(),
        },

        operand: &Token {
            t: None,
            value: "".to_string(),
        },
    };

    assert_eq!(i.calc_modrm(0b11, 0b011, 0b100), 0b11011100);
}

fn vec_compare(va: &[IntermediateCode], vb: &[IntermediateCode]) -> bool {
    println!("{:?}", vb);
    (va.len() == vb.len()) &&  // zip stops at the shortest
        va.iter()
        .zip(vb)
        .all(|(a,b)| a == b)
}

#[test]
fn test_move_immediate1() {
    let register = Token {
        t: Some(TokenType::Register),
        value: "⚫".to_string(),
    };
    let operation = Token {
        t: Some(TokenType::Move),
        value: "⬅".to_string(),
    };
    let operand = Token {
        t: Some(TokenType::Value),
        value: "1".to_string(),
    };
    let instruction = InstructionMove {
        register: &register,
        operation: &operation,
        operand: &operand,
    };

    let bytes = instruction.compile().unwrap();
    assert!(vec_compare(
        &[
            IntermediateCode::Byte(0xb8 | instruction.get_reg_value(&register).unwrap()),
            IntermediateCode::Byte(0x01),
            IntermediateCode::Byte(0x00),
            IntermediateCode::Byte(0x00),
            IntermediateCode::Byte(0x00),
        ],
        &bytes
    ));
}

#[test]
fn test_move_immediate2() {
    let register = Token {
        t: Some(TokenType::Register),
        value: "⚪".to_string(),
    };
    let operation = Token {
        t: Some(TokenType::Move),
        value: "⬅".to_string(),
    };
    let operand = Token {
        t: Some(TokenType::Value),
        value: "0".to_string(),
    };
    let instruction = InstructionMove {
        register: &register,
        operation: &operation,
        operand: &operand,
    };

    let bytes = instruction.compile().unwrap();
    assert!(vec_compare(
        &[
            IntermediateCode::Byte(0xb8 | instruction.get_reg_value(&register).unwrap()),
            IntermediateCode::Byte(0x00),
            IntermediateCode::Byte(0x00),
            IntermediateCode::Byte(0x00),
            IntermediateCode::Byte(0x00),
        ],
        &bytes
    ));
}

#[test]
fn test_move_immediate3() {
    let register = Token {
        t: Some(TokenType::Register),
        value: "⚪".to_string(),
    };
    let operation = Token {
        t: Some(TokenType::Move),
        value: "⬅".to_string(),
    };
    let operand = Token {
        t: Some(TokenType::Value),
        value: "4294967294".to_string(),
    };
    let instruction = InstructionMove {
        register: &register,
        operation: &operation,
        operand: &operand,
    };

    let bytes = instruction.compile().unwrap();
    assert!(vec_compare(
        &[
            IntermediateCode::Byte(0xb8 | instruction.get_reg_value(&register).unwrap()),
            IntermediateCode::Byte(0xfe),
            IntermediateCode::Byte(0xff),
            IntermediateCode::Byte(0xff),
            IntermediateCode::Byte(0xff),
        ],
        &bytes
    ));
}

#[test]
fn test_move_register1() {
    let register = Token {
        t: Some(TokenType::Register),
        value: "🔵".to_string(),
    };
    let operation = Token {
        t: Some(TokenType::Move),
        value: "⬅".to_string(),
    };
    let operand = Token {
        t: Some(TokenType::Register),
        value: "◀".to_string(),
    };
    let instruction = InstructionMove {
        register: &register,
        operation: &operation,
        operand: &operand,
    };

    let bytes = instruction.compile().unwrap();
    assert!(vec_compare(
        &[IntermediateCode::Byte(0x89), IntermediateCode::Byte(0xe1),],
        &bytes
    ));
}

#[test]
fn test_move_modrm1() {
    let register = Token {
        t: Some(TokenType::Register),
        value: "🔴".to_string(),
    };
    let operation = Token {
        t: Some(TokenType::Move),
        value: "⬅".to_string(),
    };
    let operand = Token {
        t: Some(TokenType::Register),
        value: "⬇".to_string(),
    };
    let offset = Token {
        t: Some(TokenType::Value),
        value: "8".to_string(),
    };
    let instruction = InstructionMoveModRM {
        register: &register,
        operation: &operation,
        operand: &operand,
        offset: &offset,
    };

    let bytes = instruction.compile().unwrap();
    assert!(vec_compare(
        &[
            IntermediateCode::Byte(0x8b),
            IntermediateCode::Byte(0x5d),
            IntermediateCode::Byte(0x08)
        ],
        &bytes
    ));
}

#[test]
fn test_add_immediate2() {
    let register = Token {
        t: Some(TokenType::Register),
        value: "⚫".to_string(),
    };
    let operation = Token {
        t: Some(TokenType::Add),
        value: "➕".to_string(),
    };
    let operand = Token {
        t: Some(TokenType::Value),
        value: "4294967294".to_string(),
    };
    let instruction = InstructionAddSubtract {
        register: &register,
        operation: &operation,
        operand: &operand,
    };

    let bytes = instruction.compile().unwrap();
    assert!(vec_compare(
        &[
            IntermediateCode::Byte(0x81),
            IntermediateCode::Byte(0b11000000 | instruction.get_reg_value(&register).unwrap()),
            IntermediateCode::Byte(0xfe),
            IntermediateCode::Byte(0xff),
            IntermediateCode::Byte(0xff),
            IntermediateCode::Byte(0xff),
        ],
        &bytes
    ));
}

#[test]
fn test_add_immediate1() {
    let register = Token {
        t: Some(TokenType::Register),
        value: "⚫".to_string(),
    };
    let operation = Token {
        t: Some(TokenType::Add),
        value: "➕".to_string(),
    };
    let operand = Token {
        t: Some(TokenType::Value),
        value: "7".to_string(),
    };
    let instruction = InstructionAddSubtract {
        register: &register,
        operation: &operation,
        operand: &operand,
    };

    let bytes = instruction.compile().unwrap();
    assert!(vec_compare(
        &[
            IntermediateCode::Byte(0x81),
            IntermediateCode::Byte(0b11000000 | instruction.get_reg_value(&register).unwrap()),
            IntermediateCode::Byte(0x07),
            IntermediateCode::Byte(0x00),
            IntermediateCode::Byte(0x00),
            IntermediateCode::Byte(0x00),
        ],
        &bytes
    ));
}

#[test]
fn test_sub_immediate1() {
    let register = Token {
        t: Some(TokenType::Register),
        value: "⚪".to_string(),
    };
    let operation = Token {
        t: Some(TokenType::Subtract),
        value: "➖".to_string(),
    };
    let operand = Token {
        t: Some(TokenType::Value),
        value: "7".to_string(),
    };
    let instruction = InstructionAddSubtract {
        register: &register,
        operation: &operation,
        operand: &operand,
    };

    let bytes = instruction.compile().unwrap();
    assert!(vec_compare(
        &[
            IntermediateCode::Byte(0x81),
            IntermediateCode::Byte(0xe8),
            IntermediateCode::Byte(0x07),
            IntermediateCode::Byte(0x00),
            IntermediateCode::Byte(0x00),
            IntermediateCode::Byte(0x00),
        ],
        &bytes
    ));
}

#[test]
fn test_add_register1() {
    let register = Token {
        t: Some(TokenType::Register),
        value: "🔴".to_string(),
    };
    let operation = Token {
        t: Some(TokenType::Add),
        value: "➕".to_string(),
    };
    let operand = Token {
        t: Some(TokenType::Register),
        value: "⚫".to_string(),
    };
    let instruction = InstructionAddSubtract {
        register: &register,
        operation: &operation,
        operand: &operand,
    };

    let bytes = instruction.compile().unwrap();
    assert!(vec_compare(
        &[IntermediateCode::Byte(0x01), IntermediateCode::Byte(0xd3),],
        &bytes
    ));
}

#[test]
fn test_sub_register1() {
    let register = Token {
        t: Some(TokenType::Register),
        value: "⚪".to_string(),
    };
    let operation = Token {
        t: Some(TokenType::Subtract),
        value: "➖".to_string(),
    };
    let operand = Token {
        t: Some(TokenType::Register),
        value: "🔴".to_string(),
    };
    let instruction = InstructionAddSubtract {
        register: &register,
        operation: &operation,
        operand: &operand,
    };

    let bytes = instruction.compile().unwrap();
    assert!(vec_compare(
        &[IntermediateCode::Byte(0x29), IntermediateCode::Byte(0xd8),],
        &bytes
    ));
}

#[test]
fn test_multiply_immediate1() {
    let register = Token {
        t: Some(TokenType::Register),
        value: "🔴".to_string(),
    };
    let operation = Token {
        t: Some(TokenType::Multiply),
        value: "✖".to_string(),
    };
    let operand = Token {
        t: Some(TokenType::Value),
        value: "0".to_string(),
    };
    let instruction = InstructionMultiply {
        register: &register,
        operation: &operation,
        operand: &operand,
    };

    let bytes = instruction.compile().unwrap();
    assert!(vec_compare(
        &[
            IntermediateCode::Byte(0x69),
            IntermediateCode::Byte(0xdb),
            IntermediateCode::Byte(0x00),
            IntermediateCode::Byte(0x00),
            IntermediateCode::Byte(0x00),
            IntermediateCode::Byte(0x00),
        ],
        &bytes
    ))
}

#[test]
fn test_multiply_immediate2() {
    let register = Token {
        t: Some(TokenType::Register),
        value: "🔴".to_string(),
    };
    let operation = Token {
        t: Some(TokenType::Multiply),
        value: "✖".to_string(),
    };
    let operand = Token {
        t: Some(TokenType::Value),
        value: "3223133".to_string(),
    };
    let instruction = InstructionMultiply {
        register: &register,
        operation: &operation,
        operand: &operand,
    };

    let bytes = instruction.compile().unwrap();
    assert!(vec_compare(
        &[
            IntermediateCode::Byte(0x69),
            IntermediateCode::Byte(0xdb),
            IntermediateCode::Byte(0x5d),
            IntermediateCode::Byte(0x2e),
            IntermediateCode::Byte(0x31),
            IntermediateCode::Byte(0x00),
        ],
        &bytes
    ))
}

#[test]
fn test_multiply_register1() {
    let register = Token {
        t: Some(TokenType::Register),
        value: "🔴".to_string(),
    };
    let operation = Token {
        t: Some(TokenType::Multiply),
        value: "✖".to_string(),
    };
    let operand = Token {
        t: Some(TokenType::Register),
        value: "⚫".to_string(),
    };
    let instruction = InstructionMultiply {
        register: &register,
        operation: &operation,
        operand: &operand,
    };

    let bytes = instruction.compile().unwrap();
    assert!(vec_compare(
        &[
            IntermediateCode::Byte(0x0f),
            IntermediateCode::Byte(0xaf),
            IntermediateCode::Byte(0xda),
        ],
        &bytes
    ))
}

#[test]
fn test_multiply_register2() {
    let register = Token {
        t: Some(TokenType::Register),
        value: "⚪".to_string(),
    };
    let operation = Token {
        t: Some(TokenType::Multiply),
        value: "✖".to_string(),
    };
    let operand = Token {
        t: Some(TokenType::Register),
        value: "⚪".to_string(),
    };
    let instruction = InstructionMultiply {
        register: &register,
        operation: &operation,
        operand: &operand,
    };

    let bytes = instruction.compile().unwrap();
    assert!(vec_compare(
        &[
            IntermediateCode::Byte(0x0f),
            IntermediateCode::Byte(0xaf),
            IntermediateCode::Byte(0xc0),
        ],
        &bytes
    ))
}

#[test]
fn compiler_test_jump() {
    let operation = Token {
        t: Some(TokenType::Jump),
        value: "🦘".to_string(),
    };
    let operand = Token {
        t: Some(TokenType::LabelReference),
        value: "test_label".to_string(),
    };
    let instruction = InstructionJump {
        operation: &operation,
        operand: &operand,
    };

    let bytes = instruction.compile().unwrap();
    assert!(vec_compare(
        &[
            IntermediateCode::Byte(0xe9),
            IntermediateCode::Displacement32("test_label".to_string())
        ],
        &bytes
    ));
}

#[test]
fn test_jump_if() {
    let operation = Token {
        t: Some(TokenType::JumpIfEqual),
        value: "🦘=".to_string(),
    };
    let operand = Token {
        t: Some(TokenType::LabelReference),
        value: "test_label".to_string(),
    };
    let instruction = InstructionJumpIf {
        operation: &operation,
        operand: &operand,
    };

    let bytes = instruction.compile().unwrap();
    assert!(vec_compare(
        &[
            IntermediateCode::Byte(0x0f),
            IntermediateCode::Byte(0x84),
            IntermediateCode::Displacement32("test_label".to_string())
        ],
        &bytes
    ));
}

#[test]
fn compiler_test_call() {
    let operation = Token {
        t: Some(TokenType::Call),
        value: "📞".to_string(),
    };
    let operand = Token {
        t: Some(TokenType::LabelReference),
        value: "test_label".to_string(),
    };
    let instruction = InstructionCall {
        operation: &operation,
        operand: &operand,
    };

    let bytes = instruction.compile().unwrap();
    assert!(vec_compare(
        &[
            IntermediateCode::Byte(0xe8),
            IntermediateCode::Displacement32("test_label".to_string())
        ],
        &bytes
    ));
}

#[test]
fn compiler_test_ret() {
    let operation = Token {
        t: Some(TokenType::Return),
        value: "↩".to_string(),
    };
    let instruction = InstructionReturn {
        operation: &operation,
    };

    let bytes = instruction.compile().unwrap();
    assert!(vec_compare(&[IntermediateCode::Byte(0xc3),], &bytes));
}

#[test]
fn test_push_immediate1() {
    let operation = Token {
        t: Some(TokenType::Push),
        value: "📥".to_string(),
    };
    let operand = Token {
        t: Some(TokenType::Value),
        value: "174285409".to_string(),
    };
    let instruction = InstructionPush {
        operation: &operation,
        operand: &operand,
    };

    let bytes = instruction.compile().unwrap();
    assert!(vec_compare(
        &[
            IntermediateCode::Byte(0x68),
            IntermediateCode::Byte(0x61),
            IntermediateCode::Byte(0x62),
            IntermediateCode::Byte(0x63),
            IntermediateCode::Byte(0x0a),
        ],
        &bytes
    ));
}

#[test]
fn test_push_register() {
    let operation = Token {
        t: Some(TokenType::Push),
        value: "📥".to_string(),
    };
    let register = Token {
        t: Some(TokenType::Register),
        value: "⬇".to_string(),
    };
    let instruction = InstructionPush {
        operation: &operation,
        operand: &register,
    };

    let bytes = instruction.compile().unwrap();
    assert!(vec_compare(&[IntermediateCode::Byte(0x55),], &bytes));
}

#[test]
fn test_push_modrm1() {
    let operation = Token {
        t: Some(TokenType::Push),
        value: "📥".to_string(),
    };
    let register = Token {
        t: Some(TokenType::Register),
        value: "⬇".to_string(),
    };
    let offset = Token {
        t: Some(TokenType::Value),
        value: "-4".to_string(),
    };
    let instruction = InstructionPushModRM {
        operation: &operation,
        register: &register,
        offset: &offset,
    };

    let bytes = instruction.compile().unwrap();
    assert!(vec_compare(
        &[
            IntermediateCode::Byte(0xff),
            IntermediateCode::Byte(0x75),
            IntermediateCode::Byte(0xfc),
        ],
        &bytes
    ));
}

#[test]
fn test_pop1() {
    let operation = Token {
        t: Some(TokenType::Pop),
        value: "📤".to_string(),
    };
    let register = Token {
        t: Some(TokenType::Register),
        value: "⬇".to_string(),
    };
    let instruction = InstructionPop {
        operation: &operation,
        operand: &register,
    };

    let bytes = instruction.compile().unwrap();
    assert!(vec_compare(&[IntermediateCode::Byte(0x5d),], &bytes));
}

#[test]
fn test_compare_register() {
    let operation = Token {
        t: Some(TokenType::Compare),
        value: "⚖".to_string(),
    };
    let left_operand = Token {
        t: Some(TokenType::Register),
        value: "🔴".to_string(),
    };
    let right_operand = Token {
        t: Some(TokenType::Register),
        value: "⚪".to_string(),
    };
    let instruction = InstructionCompare {
        operation: &operation,
        left_operand: &left_operand,
        right_operand: &right_operand,
    };

    let bytes = instruction.compile().unwrap();
    assert!(vec_compare(
        &[IntermediateCode::Byte(0x39), IntermediateCode::Byte(0xc3)],
        &bytes
    ));
}

#[test]
fn test_compare_immediate() {
    let operation = Token {
        t: Some(TokenType::Compare),
        value: "⚖".to_string(),
    };
    let left_operand = Token {
        t: Some(TokenType::Register),
        value: "⚪".to_string(),
    };
    let right_operand = Token {
        t: Some(TokenType::Value),
        value: "5".to_string(),
    };
    let instruction = InstructionCompare {
        operation: &operation,
        left_operand: &left_operand,
        right_operand: &right_operand,
    };

    let bytes = instruction.compile().unwrap();
    assert!(vec_compare(
        &[
            IntermediateCode::Byte(0x83),
            IntermediateCode::Byte(0xf8),
            IntermediateCode::Byte(0x05),
        ],
        &bytes
    ));
}

#[test]
fn test_interrupt_linux() {
    let operation = Token {
        t: Some(TokenType::Interrupt),
        value: "❗".to_string(),
    };
    let operand = Token {
        t: Some(TokenType::Value),
        value: "128".to_string(),
    };
    let instruction = InstructionInterrupt {
        operation: &operation,
        operand: &operand,
    };

    let bytes = instruction.compile().unwrap();
    assert!(vec_compare(
        &[IntermediateCode::Byte(0xcd), IntermediateCode::Byte(128),],
        &bytes
    ));
}

#[test]
fn test_interrupt_validate_ok() {
    let operation = Token {
        t: Some(TokenType::Interrupt),
        value: "❗".to_string(),
    };
    let operand = Token {
        t: Some(TokenType::Value),
        value: "$123".to_string(),
    };
    let instruction = InstructionInterrupt {
        operation: &operation,
        operand: &operand,
    };

    let result = instruction.validate();
    assert!(result.is_ok());
}

#[test]
fn test_interrupt_validate_error() {
    let operation = Token {
        t: Some(TokenType::Interrupt),
        value: "❗".to_string(),
    };
    let operand = Token {
        t: Some(TokenType::Add),
        value: "️".to_string(),
    };
    let instruction = InstructionInterrupt {
        operation: &operation,
        operand: &operand,
    };

    let result = instruction.validate();
    assert!(result.is_err());
}

#[test]
fn test_interrupt_validate_error2() {
    let operation = Token {
        t: Some(TokenType::Interrupt),
        value: "❗".to_string(),
    };
    let operand = Token {
        t: None,
        value: "".to_string(),
    };
    let instruction = InstructionInterrupt {
        operation: &operation,
        operand: &operand,
    };

    let result = instruction.validate();
    assert!(result.is_err());
}

#[test]
fn test_push_immediate_validate() {
    let operation = Token {
        t: Some(TokenType::Push),
        value: "📥".to_string(),
    };
    let operand = Token {
        t: Some(TokenType::Value),
        value: "123".to_string(),
    };
    let instruction = InstructionPush {
        operation: &operation,
        operand: &operand,
    };

    let result = instruction.validate();
    assert!(result.is_ok());
}

#[test]
fn test_move_validate_ok() {
    let register = Token {
        t: Some(TokenType::Register),
        value: "⚪".to_string(),
    };
    let operation = Token {
        t: Some(TokenType::Move),
        value: "⬅".to_string(),
    };
    let operand = Token {
        t: Some(TokenType::Value),
        value: "0".to_string(),
    };
    let instruction = InstructionMove {
        register: &register,
        operation: &operation,
        operand: &operand,
    };

    let result = instruction.validate();
    assert!(result.is_ok());
}

#[test]
fn test_move_validate_err() {
    let register = Token {
        t: Some(TokenType::Value),
        value: "123".to_string(),
    };
    let operation = Token {
        t: Some(TokenType::Move),
        value: "⬅".to_string(),
    };
    let operand = Token {
        t: Some(TokenType::Value),
        value: "0".to_string(),
    };
    let instruction = InstructionMove {
        register: &register,
        operation: &operation,
        operand: &operand,
    };

    let result = instruction.validate();
    assert!(result.is_err());
}
