use cpu::isa::{FunctionCode, Instruction, Operand, OperandKind, OperationClass};

fn build(
    operation: OperationClass,
    function: Option<FunctionCode>,
    op1: Operand,
    op2: Operand,
    op3: Operand,
) -> Instruction {
    Instruction { operation, function, op1, op2, op3 }
}

#[test]
fn operand_knows_its_kind() {
    assert_eq!(Operand::Register(0).kind(), OperandKind::Register);
    assert_eq!(Operand::Register(99).kind(), OperandKind::Register);
    assert_eq!(Operand::Constant(4095).kind(), OperandKind::Constant);
    assert_eq!(Operand::Label("loop".to_string()).kind(), OperandKind::Label);
    assert_eq!(Operand::Label(String::new()).kind(), OperandKind::Label);
}

#[test]
fn well_formed_instructions_are_recognised() {
    let r = Operand::Register;
    assert!(build(
        OperationClass::Arithmetic,
        Some(FunctionCode::ADD),
        r(1),
        r(2),
        r(3)
    )
    .is_well_formed());
    assert!(build(
        OperationClass::ArithmeticImmediate,
        Some(FunctionCode::XOR),
        r(1),
        r(2),
        Operand::Constant(3)
    )
    .is_well_formed());
    assert!(build(
        OperationClass::Control,
        Some(FunctionCode::BGT),
        r(1),
        r(2),
        Operand::Label("x".to_string())
    )
    .is_well_formed());
    assert!(build(OperationClass::LoadWord, None, r(1), r(2), Operand::Constant(3)).is_well_formed());
    assert!(build(OperationClass::StoreWord, None, r(1), r(2), Operand::Constant(3)).is_well_formed());
    // Ranges are no part of the shape.
    assert!(build(
        OperationClass::Arithmetic,
        Some(FunctionCode::ADD),
        r(64),
        r(2),
        r(3)
    )
    .is_well_formed());
}

#[test]
fn operands_of_the_wrong_kind_are_recognised() {
    let r = Operand::Register;
    assert!(!build(
        OperationClass::Arithmetic,
        Some(FunctionCode::ADD),
        Operand::Constant(1),
        r(2),
        r(3)
    )
    .is_well_formed());
    assert!(!build(
        OperationClass::Arithmetic,
        Some(FunctionCode::ADD),
        r(1),
        Operand::Label("x".to_string()),
        r(3)
    )
    .is_well_formed());
    assert!(!build(
        OperationClass::Arithmetic,
        Some(FunctionCode::ADD),
        r(1),
        r(2),
        Operand::Constant(3)
    )
    .is_well_formed());
    assert!(!build(
        OperationClass::ArithmeticImmediate,
        Some(FunctionCode::ADD),
        r(1),
        r(2),
        r(3)
    )
    .is_well_formed());
    assert!(!build(
        OperationClass::Control,
        Some(FunctionCode::BEQ),
        r(1),
        r(2),
        Operand::Constant(3)
    )
    .is_well_formed());
    assert!(!build(
        OperationClass::LoadWord,
        None,
        r(1),
        r(2),
        Operand::Label("x".to_string())
    )
    .is_well_formed());
}

#[test]
fn function_code_is_absent_exactly_for_load_and_store() {
    let r = Operand::Register;
    assert!(!build(OperationClass::Arithmetic, None, r(1), r(2), r(3)).is_well_formed());
    assert!(!build(
        OperationClass::Control,
        None,
        r(1),
        r(2),
        Operand::Label("x".to_string())
    )
    .is_well_formed());
    assert!(!build(
        OperationClass::LoadWord,
        Some(FunctionCode::ADD),
        r(1),
        r(2),
        Operand::Constant(3)
    )
    .is_well_formed());
    assert!(!build(
        OperationClass::StoreWord,
        Some(FunctionCode::BEQ),
        r(1),
        r(2),
        Operand::Constant(3)
    )
    .is_well_formed());
}
