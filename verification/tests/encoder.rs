use cpu::encoder::{format_word, print_instruction, render_words};
use cpu::isa::{ErrorKind, FunctionCode, Instruction, Operand, OperationClass};
use cpu::labels::LabelTable;

fn instruction(
    operation: OperationClass,
    function: Option<FunctionCode>,
    op1: u32,
    op2: u32,
    op3: Operand,
) -> Instruction {
    Instruction {
        operation,
        function,
        op1: Operand::Register(op1),
        op2: Operand::Register(op2),
        op3,
    }
}

fn arithmetic(function: FunctionCode, op1: u32, op2: u32, op3: u32) -> Instruction {
    instruction(OperationClass::Arithmetic, Some(function), op1, op2, Operand::Register(op3))
}

fn immediate(function: FunctionCode, op1: u32, op2: u32, op3: u32) -> Instruction {
    instruction(
        OperationClass::ArithmeticImmediate,
        Some(function),
        op1,
        op2,
        Operand::Constant(op3),
    )
}

fn branch(function: FunctionCode, op1: u32, op2: u32, target: &str) -> Instruction {
    instruction(
        OperationClass::Control,
        Some(function),
        op1,
        op2,
        Operand::Label(target.to_string()),
    )
}

fn table(entries: &[(&str, usize)]) -> LabelTable {
    let mut labels = LabelTable::new();
    for (name, index) in entries {
        labels.insert(name.to_string(), *index);
    }
    labels
}

#[test]
fn encodes_add() {
    let word = print_instruction(&arithmetic(FunctionCode::ADD, 1, 2, 3), &LabelTable::new());
    assert_eq!(word, Ok(0b001_000001_000010_000011_000000_001_00));
    assert_eq!(word, Ok(545527812));
}

#[test]
fn encodes_immediate() {
    let word = print_instruction(&immediate(FunctionCode::ADD, 5, 6, 100), &LabelTable::new());
    assert_eq!(word, Ok(0b010_000101_000110_000001100100_001_00));
    assert_eq!(word, Ok(1116474500));
}

#[test]
fn encodes_branch_against_the_table() {
    let labels = table(&[("loop", 1), ("end", 7)]);
    assert_eq!(
        print_instruction(&branch(FunctionCode::BEQ, 1, 2, "loop"), &labels),
        Ok(0b011_000001_000010_000000000001_001_00)
    );
    assert_eq!(
        print_instruction(&branch(FunctionCode::BEQ, 1, 2, "loop"), &labels),
        Ok(1619263524)
    );
    assert_eq!(
        print_instruction(&branch(FunctionCode::BGT, 1, 2, "end"), &labels),
        Ok(0b011_000001_000010_000000000111_100_00)
    );
}

#[test]
fn encodes_load_and_store() {
    let lw = instruction(OperationClass::LoadWord, None, 0, 1, Operand::Constant(4));
    let sw = instruction(OperationClass::StoreWord, None, 0, 1, Operand::Constant(4));
    assert_eq!(print_instruction(&lw, &LabelTable::new()), Ok(2147614848));
    assert_eq!(print_instruction(&sw, &LabelTable::new()), Ok(2684485760));
}

#[test]
fn encodes_largest_fields() {
    assert_eq!(
        print_instruction(&immediate(FunctionCode::XOR, 63, 63, 4095), &LabelTable::new()),
        Ok(0x5fff_fffc)
    );
    assert_eq!(
        print_instruction(&arithmetic(FunctionCode::AND, 63, 63, 63), &LabelTable::new()),
        Ok(0x3fff_f814)
    );
    assert_eq!(
        print_instruction(&arithmetic(FunctionCode::ADD, 0, 0, 0), &LabelTable::new()),
        Ok(0x2000_0004)
    );
}

#[test]
fn class_code_fills_the_top_three_bits() {
    let labels = table(&[("x", 9)]);
    let cases = [
        (arithmetic(FunctionCode::OR, 9, 8, 7), 0b001),
        (immediate(FunctionCode::OR, 9, 8, 7), 0b010),
        (branch(FunctionCode::BLO, 9, 8, "x"), 0b011),
        (instruction(OperationClass::LoadWord, None, 9, 8, Operand::Constant(7)), 0b100),
        (instruction(OperationClass::StoreWord, None, 9, 8, Operand::Constant(7)), 0b101),
    ];
    for (instruction, code) in cases {
        let word = print_instruction(&instruction, &labels).unwrap();
        assert_eq!(word >> 29, code);
    }
}

#[test]
fn function_code_fills_bits_four_to_two() {
    let labels = table(&[("x", 0)]);
    for (function, code) in [
        (FunctionCode::ADD, 1),
        (FunctionCode::SUB, 2),
        (FunctionCode::MUL, 3),
        (FunctionCode::DIV, 4),
        (FunctionCode::AND, 5),
        (FunctionCode::OR, 6),
        (FunctionCode::XOR, 7),
    ] {
        let word = print_instruction(&arithmetic(function, 1, 2, 3), &labels).unwrap();
        assert_eq!((word >> 2) & 7, code);
        let word = print_instruction(&immediate(function, 1, 2, 3), &labels).unwrap();
        assert_eq!((word >> 2) & 7, code);
        assert_eq!(word & 3, 0);
    }
    for (function, code) in [
        (FunctionCode::BEQ, 1),
        (FunctionCode::BNE, 2),
        (FunctionCode::BLO, 3),
        (FunctionCode::BGT, 4),
    ] {
        let word = print_instruction(&branch(function, 1, 2, "x"), &labels).unwrap();
        assert_eq!((word >> 2) & 7, code);
    }
    let lw = instruction(OperationClass::LoadWord, None, 1, 2, Operand::Constant(4095));
    assert_eq!((print_instruction(&lw, &labels).unwrap() >> 2) & 7, 0);
    let sw = instruction(OperationClass::StoreWord, None, 1, 2, Operand::Constant(4095));
    assert_eq!((print_instruction(&sw, &labels).unwrap() >> 2) & 7, 0);
}

#[test]
fn fields_read_back() {
    for op1 in [0u32, 1, 31, 62, 63] {
        for op2 in [0u32, 5, 63] {
            for op3 in [0u32, 1, 63, 64, 2048, 4095] {
                let word =
                    print_instruction(&immediate(FunctionCode::SUB, op1, op2, op3), &LabelTable::new())
                        .unwrap();
                assert_eq!((word >> 23) & 63, op1);
                assert_eq!((word >> 17) & 63, op2);
                assert_eq!((word >> 5) & 4095, op3);
            }
            for op3 in [0u32, 1, 33, 63] {
                let word =
                    print_instruction(&arithmetic(FunctionCode::SUB, op1, op2, op3), &LabelTable::new())
                        .unwrap();
                assert_eq!((word >> 23) & 63, op1);
                assert_eq!((word >> 17) & 63, op2);
                assert_eq!((word >> 11) & 63, op3);
                assert_eq!((word >> 5) & 63, 0);
            }
        }
    }
}

#[test]
fn register_64_is_rejected() {
    let labels = LabelTable::new();
    assert_eq!(
        print_instruction(&arithmetic(FunctionCode::ADD, 63, 63, 63), &labels),
        Ok(0b001_111111_111111_111111_000000_001_00)
    );
    assert_eq!(
        print_instruction(&arithmetic(FunctionCode::ADD, 64, 0, 0), &labels),
        Err(ErrorKind::OperandOutOfRange)
    );
    assert_eq!(
        print_instruction(&arithmetic(FunctionCode::ADD, 0, 64, 0), &labels),
        Err(ErrorKind::OperandOutOfRange)
    );
    assert_eq!(
        print_instruction(&arithmetic(FunctionCode::ADD, 0, 0, 64), &labels),
        Err(ErrorKind::OperandOutOfRange)
    );
    assert_eq!(
        print_instruction(&arithmetic(FunctionCode::ADD, u32::MAX, 0, 0), &labels),
        Err(ErrorKind::OperandOutOfRange)
    );
    assert_eq!(
        print_instruction(&branch(FunctionCode::BEQ, 64, 0, "missing"), &labels),
        Err(ErrorKind::OperandOutOfRange)
    );
}

#[test]
fn constant_4096_is_rejected() {
    let labels = LabelTable::new();
    assert_eq!(
        print_instruction(&immediate(FunctionCode::ADD, 0, 0, 4095), &labels),
        Ok(0b010_000000_000000_111111111111_001_00)
    );
    assert_eq!(
        print_instruction(&immediate(FunctionCode::ADD, 0, 0, 4096), &labels),
        Err(ErrorKind::OperandOutOfRange)
    );
    assert_eq!(
        print_instruction(&immediate(FunctionCode::ADD, 0, 0, u32::MAX), &labels),
        Err(ErrorKind::OperandOutOfRange)
    );
}

#[test]
fn label_index_4096_is_rejected() {
    let labels = table(&[("near", 4095), ("far", 4096), ("wide", usize::MAX)]);
    assert_eq!(
        print_instruction(&branch(FunctionCode::BNE, 0, 0, "near"), &labels),
        Ok(0b011_000000_000000_111111111111_010_00)
    );
    assert_eq!(
        print_instruction(&branch(FunctionCode::BNE, 0, 0, "far"), &labels),
        Err(ErrorKind::OperandOutOfRange)
    );
    assert_eq!(
        print_instruction(&branch(FunctionCode::BNE, 0, 0, "wide"), &labels),
        Err(ErrorKind::OperandOutOfRange)
    );
}

#[test]
fn missing_label_is_an_error_with_its_name() {
    let labels = table(&[("loop", 1)]);
    assert_eq!(
        print_instruction(&branch(FunctionCode::BEQ, 1, 2, "lop"), &labels),
        Err(ErrorKind::UnresolvedLabel { name: "lop".to_string() })
    );
    assert_eq!(
        print_instruction(&branch(FunctionCode::BEQ, 1, 2, ""), &LabelTable::new()),
        Err(ErrorKind::UnresolvedLabel { name: String::new() })
    );
}

#[test]
fn same_input_gives_same_word() {
    let labels = table(&[("loop", 5)]);
    let again = table(&[("loop", 5)]);
    let first = branch(FunctionCode::BLO, 3, 4, "loop");
    let second = branch(FunctionCode::BLO, 3, 4, "loop");
    let word = print_instruction(&first, &labels);
    assert_eq!(word, print_instruction(&first, &labels));
    assert_eq!(word, print_instruction(&second, &again));
    assert_eq!(word, Ok(0b011_000011_000100_000000000101_011_00));
}

#[test]
fn word_is_rendered_as_32_binary_digits() {
    assert_eq!(format_word(0), "00000000000000000000000000000000");
    assert_eq!(format_word(1), "00000000000000000000000000000001");
    assert_eq!(format_word(u32::MAX), "11111111111111111111111111111111");
    assert_eq!(format_word(0x8000_0000), "10000000000000000000000000000000");
    assert_eq!(format_word(545527812), "00100000100001000001100000000100");
    assert_eq!(format_word(2684485760), "10100000000000100000000010000000");
    for word in [0u32, 1, 2, 3, 0x1234_5678, 0xdead_beef, 0x7fff_ffff, 0xffff_fffe] {
        assert_eq!(format_word(word), format!("{:032b}", word));
    }
}

#[test]
fn program_is_rendered_one_word_per_line() {
    assert_eq!(render_words(&Vec::new()), "");
    assert_eq!(
        render_words(&vec![2147614848]),
        "10000000000000100000000010000000\n"
    );
    assert_eq!(
        render_words(&vec![2147614848, 2684485760, 0]),
        "10000000000000100000000010000000\n10100000000000100000000010000000\n00000000000000000000000000000000\n"
    );
}
