use cpu::assembler::{assemble, assemble_line, assemble_lines, find_dropped_lines, AsmError};
use cpu::encoder::render_words;
use cpu::isa::ErrorKind;
use cpu::labels::{build_label_table, LabelTable};
use cpu::tokenizer::tokenize_string;

fn tokens(text: &str) -> Vec<String> {
    text.split_whitespace().map(String::from).collect()
}

#[test]
fn load_and_store_end_to_end() {
    let words = assemble("lw $0, $1, 4\nsw $0, $1, 4".to_string()).unwrap();
    assert_eq!(words.len(), 2);
    assert_eq!(words[0] >> 29, 0b100);
    assert_eq!(words[1] >> 29, 0b101);
    for word in &words {
        assert_eq!((word >> 23) & 63, 0);
        assert_eq!((word >> 17) & 63, 1);
        assert_eq!((word >> 5) & 4095, 0b000000000100);
        assert_eq!(word & 31, 0);
    }
    assert_eq!(words, vec![2147614848, 2684485760]);
    assert_eq!(
        render_words(&words),
        "10000000000000100000000010000000\n10100000000000100000000010000000\n"
    );
}

#[test]
fn branch_carries_the_label_index() {
    let source = "add $1, $2, $3\nloop: sub $1, $2, $3\nbeq $1, $2, loop";
    let lines = tokenize_string(source.to_string());
    assert_eq!(build_label_table(&lines).get("loop"), Some(1));
    let words = assemble(source.to_string()).unwrap();
    // The line that defines the label holds no instruction of its own.
    assert_eq!(words, vec![545527812, 1619263524]);
    let branch = words[words.len() - 1];
    assert_eq!((branch >> 5) & 4095, 0b000000000001);
    assert_eq!(branch >> 29, 0b011);
}

#[test]
fn forward_labels_resolve() {
    let words = assemble(
        "beq $1, $2, end\nadd $1, $2, $3\nend:\nsub $1, $2, $3\n".to_string(),
    )
    .unwrap();
    assert_eq!(words.len(), 3);
    assert_eq!((words[0] >> 5) & 4095, 2);
    assert_eq!(words[1], 545527812);
    assert_eq!(words[2], 545527816);
}

#[test]
fn unknown_mnemonic_emits_nothing_and_is_no_error() {
    assert_eq!(assemble("nop".to_string()), Ok(vec![]));
    assert_eq!(assemble("nop $x, $y, 99999\n".to_string()), Ok(vec![]));
    assert_eq!(
        assemble("add $1, $2, $3\nhalt\nsub $1, $2, $3".to_string()),
        Ok(vec![545527812, 545527816])
    );
}

#[test]
fn unknown_mnemonic_does_not_shift_labels() {
    let with = "add $1, $2, $3\nnop\ntarget:\nsub $1, $2, $3\nbeq $1, $2, target\n";
    let without = "add $1, $2, $3\ntarget:\nsub $1, $2, $3\nbeq $1, $2, target\n";
    let lines = tokenize_string(with.to_string());
    assert_eq!(build_label_table(&lines).get("target"), Some(1));
    let words = assemble(with.to_string()).unwrap();
    assert_eq!(words, assemble(without.to_string()).unwrap());
    assert_eq!(words.len(), 3);
    // The branch points at the instruction that follows the label.
    let target = ((words[2] >> 5) & 4095) as usize;
    assert_eq!(target, 1);
    assert_eq!(words[target], 545527816);
}

#[test]
fn blank_lines_are_skipped() {
    assert_eq!(assemble(String::new()), Ok(vec![]));
    assert_eq!(assemble("\n\n   \n".to_string()), Ok(vec![]));
    let words = assemble("\n\nadd $1, $2, $3\n\nend:\n\nbeq $1, $2, end\n".to_string()).unwrap();
    assert_eq!(words.len(), 2);
    assert_eq!((words[1] >> 5) & 4095, 1);
}

#[test]
fn dropped_lines_are_reported_for_diagnostics() {
    let lines = tokenize_string(
        "add $1, $2, $3\nnop\n\nloop:\nhalt $1\nbeq $1, $2, loop\nADD $1, $2, $3".to_string(),
    );
    assert_eq!(find_dropped_lines(&lines), vec![1, 4, 6]);
    assert_eq!(find_dropped_lines(&Vec::new()), Vec::<usize>::new());
}

#[test]
fn unresolved_label_fails_with_name_and_line() {
    assert_eq!(
        assemble("add $1, $2, $3\nbeq $1, $2, nowhere\n".to_string()),
        Err(vec![AsmError {
            line: 1,
            kind: ErrorKind::UnresolvedLabel { name: "nowhere".to_string() },
        }])
    );
}

#[test]
fn all_errors_are_collected_in_line_order() {
    let source = "add $x, $1, $2\nadd $1, $2, $3\nsub $64, $1, $2\n\nbne $1, $2, gone\naddi $1, $2, 4096\nlw $1\nnop\nok:\nbeq $1, $2, ok";
    assert_eq!(
        assemble(source.to_string()),
        Err(vec![
            AsmError { line: 0, kind: ErrorKind::MalformedOperand },
            AsmError { line: 2, kind: ErrorKind::OperandOutOfRange },
            AsmError { line: 4, kind: ErrorKind::UnresolvedLabel { name: "gone".to_string() } },
            AsmError { line: 5, kind: ErrorKind::OperandOutOfRange },
            AsmError { line: 6, kind: ErrorKind::MalformedOperand },
        ])
    );
}

#[test]
fn one_error_withholds_every_word() {
    assert!(assemble("add $1, $2, $3\nadd $1, $2, $3\nadd $1, $2, $64".to_string()).is_err());
    assert_eq!(
        assemble("add $1, $2, $3\nadd $1, $2, $3\nadd $1, $2, $63".to_string()).map(|w| w.len()),
        Ok(3)
    );
}

#[test]
fn label_beyond_the_field_is_out_of_range() {
    let mut source = String::new();
    for _ in 0..4095 {
        source.push_str("add $1, $2, $3\n");
    }
    source.push_str("far:\nbeq $1, $2, far\n");
    let words = assemble(source.clone()).unwrap();
    assert_eq!(words.len(), 4096);
    assert_eq!((words[4095] >> 5) & 4095, 4095);

    let longer = format!("add $1, $2, $3\n{}", source);
    assert_eq!(
        assemble(longer),
        Err(vec![AsmError { line: 4097, kind: ErrorKind::OperandOutOfRange }])
    );
}

#[test]
fn tokenized_program_assembles_like_its_text() {
    let source = "start:\naddi $1, $0, 10\nloop:\nsubi $1, $1, 1\nbgt $1, $0, loop\nsw $1, $0, 0\n";
    let lines = tokenize_string(source.to_string());
    assert_eq!(assemble_lines(&lines), assemble(source.to_string()));
    let words = assemble_lines(&lines).unwrap();
    assert_eq!(
        words,
        vec![
            0b010_000001_000000_000000001010_001_00,
            0b010_000001_000001_000000000001_010_00,
            0b011_000001_000000_000000000001_100_00,
            0b101_000001_000000_000000000000_000_00,
        ]
    );
}

#[test]
fn single_lines_assemble_against_a_table() {
    let mut labels = LabelTable::new();
    labels.insert("loop".to_string(), 1);
    assert_eq!(assemble_line(&tokens("add $1, $2, $3"), &labels), Ok(Some(545527812)));
    assert_eq!(assemble_line(&tokens("beq $1, $2, loop"), &labels), Ok(Some(1619263524)));
    assert_eq!(assemble_line(&tokens("loop:"), &labels), Ok(None));
    assert_eq!(assemble_line(&tokens("add: $x"), &labels), Ok(None));
    assert_eq!(assemble_line(&tokens("nop"), &labels), Ok(None));
    assert_eq!(assemble_line(&Vec::new(), &labels), Ok(None));
    assert_eq!(
        assemble_line(&tokens("beq $1, $2, away"), &labels),
        Err(ErrorKind::UnresolvedLabel { name: "away".to_string() })
    );
    assert_eq!(
        assemble_line(&tokens("add $1, $2, $x"), &labels),
        Err(ErrorKind::MalformedOperand)
    );
}

#[test]
fn assembling_twice_gives_the_same_words() {
    let source = "a:\nadd $1, $2, $3\nbeq $1, $2, a\nbne $3, $4, b\nb:\nxori $9, $8, 77\n";
    assert_eq!(assemble(source.to_string()), assemble(source.to_string()));
}
