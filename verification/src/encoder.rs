//! Packing one instruction into a 32-bit word, and rendering words as text.
//!
//! Bit layout, bit 31 first:
//!
//! | bits  | content                                              |
//! |-------|------------------------------------------------------|
//! | 31–29 | operation class code                                 |
//! | 28–23 | first register                                       |
//! | 22–17 | second register                                      |
//! | 16–5  | third operand: a register in bits 16–11, or a twelve-bit constant or label index |
//! | 4–2   | function code, zero when absent                      |
//! | 1–0   | zero                                                 |
use vstd::prelude::*;
use crate::isa::{
    ErrorKind, ErrorKindView, FunctionCode, Instruction, InstructionView, Operand, OperandView,
    OperationClass,
};
use crate::labels::LabelTable;
use crate::parser::{MAX_CONSTANT, MAX_REGISTER};

verus! {

/// The three-bit code of an operation class. Zero is not a class.
pub open spec fn class_code(operation: OperationClass) -> u32 {
    match operation {
        OperationClass::Arithmetic => 1,
        OperationClass::ArithmeticImmediate => 2,
        OperationClass::Control => 3,
        OperationClass::LoadWord => 4,
        OperationClass::StoreWord => 5,
    }
}

/// The three-bit code of a function selector; zero when there is none.
pub open spec fn function_code(function: Option<FunctionCode>) -> u32 {
    match function {
        None => 0,
        Some(FunctionCode::ADD) | Some(FunctionCode::BEQ) => 1,
        Some(FunctionCode::SUB) | Some(FunctionCode::BNE) => 2,
        Some(FunctionCode::MUL) | Some(FunctionCode::BLO) => 3,
        Some(FunctionCode::DIV) | Some(FunctionCode::BGT) => 4,
        Some(FunctionCode::AND) => 5,
        Some(FunctionCode::OR) => 6,
        Some(FunctionCode::XOR) => 7,
    }
}

/// The register number an operand holds; zero for an operand that is no
/// register.
pub open spec fn register_number(operand: OperandView) -> u32 {
    match operand {
        OperandView::Register(n) => n,
        _ => 0,
    }
}

/// The twelve-bit value of the third operand, to be placed in bits 16–5: a
/// register number moved up by six bits, a constant, or the index that the
/// label table gives for a label.
pub open spec fn third_field(operand: OperandView, labels: Map<Seq<char>, usize>) -> Result<
    u32,
    ErrorKindView,
> {
    match operand {
        OperandView::Register(n) => if n > MAX_REGISTER {
            Err(ErrorKindView::OperandOutOfRange)
        } else {
            Ok(n << 6)
        },
        OperandView::Constant(n) => if n > MAX_CONSTANT {
            Err(ErrorKindView::OperandOutOfRange)
        } else {
            Ok(n)
        },
        OperandView::Label(name) => if !labels.contains_key(name) {
            Err(ErrorKindView::UnresolvedLabel { name })
        } else if labels[name] > MAX_CONSTANT {
            Err(ErrorKindView::OperandOutOfRange)
        } else {
            Ok(labels[name] as u32)
        },
    }
}

/// The word made of the five fields.
pub open spec fn pack(class: u32, first: u32, second: u32, third: u32, function: u32) -> u32 {
    class << 29 | first << 23 | second << 17 | third << 5 | function << 2
}

/// The encoding of an instruction against a label table: the packed word,
/// or the error of the first operand that does not fit its field or names
/// no label.
pub open spec fn encode(instruction: InstructionView, labels: Map<Seq<char>, usize>) -> Result<
    u32,
    ErrorKindView,
>
    recommends
        instruction.well_formed(),
{
    if register_number(instruction.op1) > MAX_REGISTER || register_number(instruction.op2)
        > MAX_REGISTER {
        Err(ErrorKindView::OperandOutOfRange)
    } else {
        match third_field(instruction.op3, labels) {
            Err(e) => Err(e),
            Ok(third) => Ok(
                pack(
                    class_code(instruction.operation),
                    register_number(instruction.op1),
                    register_number(instruction.op2),
                    third,
                    function_code(instruction.function),
                ),
            ),
        }
    }
}

/// The model of an encoding result.
pub open spec fn word_result(r: Result<u32, ErrorKind>) -> Result<u32, ErrorKindView> {
    match r {
        Ok(word) => Ok(word),
        Err(e) => Err(e@),
    }
}

/// Every field of a packed word reads back as it was written, and the two
/// lowest bits are zero.
pub proof fn lemma_pack_fields(class: u32, first: u32, second: u32, third: u32, function: u32)
    requires
        class <= 7,
        first <= 63,
        second <= 63,
        third <= 4095,
        function <= 7,
    ensures
        pack(class, first, second, third, function) >> 29 == class,
        (pack(class, first, second, third, function) >> 23) & 63 == first,
        (pack(class, first, second, third, function) >> 17) & 63 == second,
        (pack(class, first, second, third, function) >> 5) & 4095 == third,
        (pack(class, first, second, third, function) >> 2) & 7 == function,
        pack(class, first, second, third, function) & 3 == 0,
{
    assert({
        let w = class << 29 | first << 23 | second << 17 | third << 5 | function << 2;
        &&& w >> 29 == class
        &&& (w >> 23) & 63 == first
        &&& (w >> 17) & 63 == second
        &&& (w >> 5) & 4095 == third
        &&& (w >> 2) & 7 == function
        &&& w & 3 == 0
    }) by (bit_vector)
        requires
            class <= 7,
            first <= 63,
            second <= 63,
            third <= 4095,
            function <= 7,
    ;
}

/// A register in the third field sits in bits 16–11; bits 10–5 are zero.
pub proof fn lemma_pack_third_register(
    class: u32,
    first: u32,
    second: u32,
    register: u32,
    function: u32,
)
    requires
        class <= 7,
        first <= 63,
        second <= 63,
        register <= 63,
        function <= 7,
    ensures
        register << 6 <= 4095,
        (pack(class, first, second, register << 6, function) >> 11) & 63 == register,
        (pack(class, first, second, register << 6, function) >> 5) & 63 == 0,
{
    assert({
        let w = class << 29 | first << 23 | second << 17 | (register << 6) << 5 | function << 2;
        &&& register << 6 <= 4095
        &&& (w >> 11) & 63 == register
        &&& (w >> 5) & 63 == 0
    }) by (bit_vector)
        requires
            class <= 7,
            first <= 63,
            second <= 63,
            register <= 63,
            function <= 7,
    ;
}

/// Encoding is a function of what the instruction and the label table
/// hold: instructions with the same model, against tables with the same
/// model, always encode to the same word or fail with the same error.
pub proof fn lemma_encode_deterministic(
    a: Instruction,
    b: Instruction,
    labels_a: LabelTable,
    labels_b: LabelTable,
)
    requires
        a@ == b@,
        labels_a@ == labels_b@,
    ensures
        encode(a@, labels_a@) == encode(b@, labels_b@),
{
}

/// Bits 31–29 of every encoded word hold the code of the instruction's
/// class: 1 for arithmetic, 2 for arithmetic with an immediate, 3 for
/// control, 4 for a load and 5 for a store.
pub proof fn lemma_class_bits(instruction: InstructionView, labels: Map<Seq<char>, usize>)
    requires
        encode(instruction, labels) is Ok,
    ensures
        encode(instruction, labels)->Ok_0 >> 29 == class_code(instruction.operation),
        instruction.operation is Arithmetic ==> encode(instruction, labels)->Ok_0 >> 29 == 1,
        instruction.operation is ArithmeticImmediate ==> encode(instruction, labels)->Ok_0 >> 29
            == 2,
        instruction.operation is Control ==> encode(instruction, labels)->Ok_0 >> 29 == 3,
        instruction.operation is LoadWord ==> encode(instruction, labels)->Ok_0 >> 29 == 4,
        instruction.operation is StoreWord ==> encode(instruction, labels)->Ok_0 >> 29 == 5,
{
    lemma_encoded_fields(instruction, labels);
}

/// Bits 4–2 of every encoded word hold the function code: 1 for `ADD` and
/// for `BEQ`, and 0 when the instruction has no function.
pub proof fn lemma_function_bits(instruction: InstructionView, labels: Map<Seq<char>, usize>)
    requires
        encode(instruction, labels) is Ok,
    ensures
        (encode(instruction, labels)->Ok_0 >> 2) & 7 == function_code(instruction.function),
        instruction.function == Some(FunctionCode::ADD) || instruction.function == Some(
            FunctionCode::BEQ,
        ) ==> (encode(instruction, labels)->Ok_0 >> 2) & 7 == 1,
        instruction.function is None ==> (encode(instruction, labels)->Ok_0 >> 2) & 7 == 0,
{
    lemma_encoded_fields(instruction, labels);
}

/// Every field of an encoded word reads back as the instruction gave it:
/// the class, both registers, the twelve bits of the third operand and the
/// function code; the two lowest bits are zero. A register as third operand
/// reads back from bits 16–11, above six zero bits.
pub proof fn lemma_encoded_fields(instruction: InstructionView, labels: Map<Seq<char>, usize>)
    requires
        encode(instruction, labels) is Ok,
    ensures
        ({
            let word = encode(instruction, labels)->Ok_0;
            &&& word >> 29 == class_code(instruction.operation)
            &&& (word >> 23) & 63 == register_number(instruction.op1)
            &&& (word >> 17) & 63 == register_number(instruction.op2)
            &&& third_field(instruction.op3, labels) == Ok::<u32, ErrorKindView>(
                (word >> 5) & 4095,
            )
            &&& (word >> 2) & 7 == function_code(instruction.function)
            &&& word & 3 == 0
            &&& instruction.op3 matches OperandView::Register(n) ==> (word >> 11) & 63 == n && (word
                >> 5) & 63 == 0
        }),
{
    let class = class_code(instruction.operation);
    let first = register_number(instruction.op1);
    let second = register_number(instruction.op2);
    let third = third_field(instruction.op3, labels)->Ok_0;
    let function = function_code(instruction.function);
    if let OperandView::Register(n) = instruction.op3 {
        lemma_pack_third_register(class, first, second, n, function);
    }
    lemma_pack_fields(class, first, second, third, function);
}

/// An instruction encodes exactly when both registers are at most 63 and
/// the third operand fits: a register at most 63, a constant at most 4095,
/// or a label that the table defines with an index at most 4095.
pub proof fn lemma_encode_succeeds(instruction: InstructionView, labels: Map<Seq<char>, usize>)
    ensures
        encode(instruction, labels) is Ok <==> ({
            &&& register_number(instruction.op1) <= 63
            &&& register_number(instruction.op2) <= 63
            &&& match instruction.op3 {
                OperandView::Register(n) => n <= 63,
                OperandView::Constant(n) => n <= 4095,
                OperandView::Label(name) => labels.contains_key(name) && labels[name] <= 4095,
            }
        }),
{
}

fn class_code_of(operation: OperationClass) -> (code: u32)
    ensures
        code == class_code(operation),
{
    match operation {
        OperationClass::Arithmetic => 1,
        OperationClass::ArithmeticImmediate => 2,
        OperationClass::Control => 3,
        OperationClass::LoadWord => 4,
        OperationClass::StoreWord => 5,
    }
}

fn function_code_of(function: Option<FunctionCode>) -> (code: u32)
    ensures
        code == function_code(function),
{
    match function {
        None => 0,
        Some(FunctionCode::ADD) | Some(FunctionCode::BEQ) => 1,
        Some(FunctionCode::SUB) | Some(FunctionCode::BNE) => 2,
        Some(FunctionCode::MUL) | Some(FunctionCode::BLO) => 3,
        Some(FunctionCode::DIV) | Some(FunctionCode::BGT) => 4,
        Some(FunctionCode::AND) => 5,
        Some(FunctionCode::OR) => 6,
        Some(FunctionCode::XOR) => 7,
    }
}

fn register_number_of(operand: &Operand) -> (n: u32)
    ensures
        n == register_number(operand@),
{
    match operand {
        Operand::Register(n) => *n,
        _ => 0,
    }
}

fn third_field_of(operand: &Operand, labels: &LabelTable) -> (r: Result<u32, ErrorKind>)
    ensures
        word_result(r) == third_field(operand@, labels@),
{
    match operand {
        Operand::Register(n) => if *n > MAX_REGISTER {
            Err(ErrorKind::OperandOutOfRange)
        } else {
            Ok(*n << 6)
        },
        Operand::Constant(n) => if *n > MAX_CONSTANT {
            Err(ErrorKind::OperandOutOfRange)
        } else {
            Ok(*n)
        },
        Operand::Label(name) => match labels.get(name.as_str()) {
            None => Err(ErrorKind::UnresolvedLabel { name: name.clone() }),
            Some(index) => if index > MAX_CONSTANT as usize {
                Err(ErrorKind::OperandOutOfRange)
            } else {
                Ok(index as u32)
            },
        },
    }
}

/// Encodes one instruction against the completed label table.
///
/// The result is the packed word when both registers are at most 63 and the
/// third operand fits its field: a register at most 63, a constant at most
/// 4095, or a label that the table defines with an index at most 4095. A
/// register or constant beyond its range, or a label index beyond 4095, is
/// `OperandOutOfRange`; a label the table does not define is
/// `UnresolvedLabel` with the label's name.
pub fn print_instruction(instruction: &Instruction, labels: &LabelTable) -> (r: Result<
    u32,
    ErrorKind,
>)
    requires
        instruction@.well_formed(),
    ensures
        word_result(r) == encode(instruction@, labels@),
        r matches Ok(word) ==> word >> 29 == class_code(instruction.operation),
        r matches Ok(word) ==> (word >> 23) & 63 == register_number(instruction@.op1),
        r matches Ok(word) ==> (word >> 17) & 63 == register_number(instruction@.op2),
        r matches Ok(word) ==> third_field(instruction@.op3, labels@) == Ok::<u32, ErrorKindView>(
            (word >> 5) & 4095,
        ),
        r matches Ok(word) ==> (word >> 2) & 7 == function_code(instruction.function),
        r matches Ok(word) ==> word & 3 == 0,
{
    let first = register_number_of(&instruction.op1);
    let second = register_number_of(&instruction.op2);
    if first > MAX_REGISTER || second > MAX_REGISTER {
        return Err(ErrorKind::OperandOutOfRange);
    }
    let third = match third_field_of(&instruction.op3, labels) {
        Err(e) => {
            return Err(e);
        },
        Ok(third) => third,
    };
    let class = class_code_of(instruction.operation);
    let function = function_code_of(instruction.function);
    proof {
        lemma_encoded_fields(instruction@, labels@);
    }
    Ok(class << 29 | first << 23 | second << 17 | third << 5 | function << 2)
}

/// The binary digit of `word` at `position`, counted from the most
/// significant bit.
pub open spec fn bit_char(word: u32, position: int) -> char
    recommends
        0 <= position < 32,
{
    if (word >> ((31 - position) as u32)) & 1 == 1 {
        '1'
    } else {
        '0'
    }
}

/// The 32 binary digits of `word`, most significant first.
pub open spec fn binary_digits(word: u32) -> Seq<char> {
    Seq::new(32, |position: int| bit_char(word, position))
}

/// The output text of a program: the binary digits of each word, each
/// followed by a line feed, in program order.
pub open spec fn rendered(words: Seq<u32>) -> Seq<char>
    decreases words.len(),
{
    if words.len() == 0 {
        Seq::empty()
    } else {
        rendered(words.drop_last()) + binary_digits(words.last()) + seq!['\n']
    }
}

/// A rendered word is 32 characters long, and each is `0` or `1`.
pub proof fn lemma_binary_digits(word: u32)
    ensures
        binary_digits(word).len() == 32,
        forall|i: int|
            0 <= i < 32 ==> #[trigger] binary_digits(word)[i] == '0' || binary_digits(word)[i]
                == '1',
{
}

/// A rendered program has one line of 33 characters, the line feed
/// counted, for each word.
pub proof fn lemma_rendered_len(words: Seq<u32>)
    ensures
        rendered(words).len() == 33 * words.len(),
    decreases words.len(),
{
    if words.len() > 0 {
        lemma_rendered_len(words.drop_last());
    }
}

fn push_word(out: &mut String, word: u32)
    ensures
        final(out)@ == old(out)@ + binary_digits(word),
{
    let mut i: u32 = 0;
    while i < 32
        invariant
            i <= 32,
            out@.len() == old(out)@.len() + i,
            out@.take(old(out)@.len() as int) == old(out)@,
            forall|j: int| 0 <= j < i ==> out@[old(out)@.len() + j] == bit_char(word, j),
        decreases 32 - i,
    {
        let bit = (word >> (31 - i)) & 1;
        out.push(if bit == 1 {
            '1'
        } else {
            '0'
        });
        i += 1;
    }
}

/// Renders a word as 32 binary digits, most significant first.
pub fn format_word(word: u32) -> (s: String)
    ensures
        s@ == binary_digits(word),
{
    let mut s = String::new();
    push_word(&mut s, word);
    s
}

/// Renders a program: one line of 32 binary digits for each word.
pub fn render_words(words: &Vec<u32>) -> (s: String)
    ensures
        s@ == rendered(words@),
{
    let mut s = String::new();
    let mut i: usize = 0;
    while i < words.len()
        invariant
            i <= words.len(),
            s@ == rendered(words@.take(i as int)),
        decreases words.len() - i,
    {
        assert(words@.take(i + 1).drop_last() == words@.take(i as int));
        push_word(&mut s, words[i]);
        s.push('\n');
        i += 1;
    }
    assert(words@.take(i as int) == words@);
    s
}

} // verus!
