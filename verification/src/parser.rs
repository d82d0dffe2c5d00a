//! From one token line to one instruction: the mnemonic table, operand
//! decoration, and the operand rules of each operation class.
use vstd::prelude::*;
use crate::isa::{
    ErrorKind, ErrorKindView, FunctionCode, Instruction, InstructionView, Operand, OperandKind,
    OperandView, OperationClass, third_operand_kind,
};
use crate::text::{chars_of, is_numeral, numeral_value, parse_numeral, string_of};

verus! {

/// Largest register number.
pub const MAX_REGISTER: u32 = 63;

/// Largest immediate constant, and largest branch target index.
pub const MAX_CONSTANT: u32 = 4095;

/// The fixed mnemonic table: the operation class and function code that a
/// line's leading token selects, or `None` for any other token.
pub open spec fn mnemonic(token: Seq<char>) -> Option<(OperationClass, Option<FunctionCode>)> {
    if token == "add"@ {
        Some((OperationClass::Arithmetic, Some(FunctionCode::ADD)))
    } else if token == "addi"@ {
        Some((OperationClass::ArithmeticImmediate, Some(FunctionCode::ADD)))
    } else if token == "sub"@ {
        Some((OperationClass::Arithmetic, Some(FunctionCode::SUB)))
    } else if token == "subi"@ {
        Some((OperationClass::ArithmeticImmediate, Some(FunctionCode::SUB)))
    } else if token == "mul"@ {
        Some((OperationClass::Arithmetic, Some(FunctionCode::MUL)))
    } else if token == "muli"@ {
        Some((OperationClass::ArithmeticImmediate, Some(FunctionCode::MUL)))
    } else if token == "div"@ {
        Some((OperationClass::Arithmetic, Some(FunctionCode::DIV)))
    } else if token == "divi"@ {
        Some((OperationClass::ArithmeticImmediate, Some(FunctionCode::DIV)))
    } else if token == "and"@ {
        Some((OperationClass::Arithmetic, Some(FunctionCode::AND)))
    } else if token == "andi"@ {
        Some((OperationClass::ArithmeticImmediate, Some(FunctionCode::AND)))
    } else if token == "or"@ {
        Some((OperationClass::Arithmetic, Some(FunctionCode::OR)))
    } else if token == "ori"@ {
        Some((OperationClass::ArithmeticImmediate, Some(FunctionCode::OR)))
    } else if token == "xor"@ {
        Some((OperationClass::Arithmetic, Some(FunctionCode::XOR)))
    } else if token == "xori"@ {
        Some((OperationClass::ArithmeticImmediate, Some(FunctionCode::XOR)))
    } else if token == "beq"@ {
        Some((OperationClass::Control, Some(FunctionCode::BEQ)))
    } else if token == "bne"@ {
        Some((OperationClass::Control, Some(FunctionCode::BNE)))
    } else if token == "blo"@ {
        Some((OperationClass::Control, Some(FunctionCode::BLO)))
    } else if token == "bgt"@ {
        Some((OperationClass::Control, Some(FunctionCode::BGT)))
    } else if token == "lw"@ {
        Some((OperationClass::LoadWord, None))
    } else if token == "sw"@ {
        Some((OperationClass::StoreWord, None))
    } else {
        None
    }
}

/// Whether `chars` spells exactly `word`.
fn spells(chars: &Vec<char>, word: &str) -> (r: bool)
    ensures
        r == (chars@ == word@),
{
    let mut i: usize = 0;
    for c in it: word.chars()
        invariant
            i == it.index(),
            it.seq() == word@,
            i <= chars.len(),
            chars@.take(i as int) == word@.take(i as int),
    {
        if i >= chars.len() || chars[i] != c {
            assert(chars@ != word@) by {
                if chars@ == word@ {
                    assert(chars@[i as int] == word@[i as int]);
                }
            }
            return false;
        }
        assert(chars@.take(i + 1) == chars@.take(i as int).push(chars@[i as int]));
        assert(word@.take(i + 1) == word@.take(i as int).push(word@[i as int]));
        i += 1;
    }
    assert(word@.take(i as int) == word@);
    if i == chars.len() {
        assert(chars@.take(i as int) == chars@);
        true
    } else {
        false
    }
}

/// Looks a line's leading token up in the mnemonic table.
pub fn resolve_mnemonic(token: &str) -> (r: Option<(OperationClass, Option<FunctionCode>)>)
    ensures
        r == mnemonic(token@),
{
    let chars = chars_of(token);
    if spells(&chars, "add") {
        Some((OperationClass::Arithmetic, Some(FunctionCode::ADD)))
    } else if spells(&chars, "addi") {
        Some((OperationClass::ArithmeticImmediate, Some(FunctionCode::ADD)))
    } else if spells(&chars, "sub") {
        Some((OperationClass::Arithmetic, Some(FunctionCode::SUB)))
    } else if spells(&chars, "subi") {
        Some((OperationClass::ArithmeticImmediate, Some(FunctionCode::SUB)))
    } else if spells(&chars, "mul") {
        Some((OperationClass::Arithmetic, Some(FunctionCode::MUL)))
    } else if spells(&chars, "muli") {
        Some((OperationClass::ArithmeticImmediate, Some(FunctionCode::MUL)))
    } else if spells(&chars, "div") {
        Some((OperationClass::Arithmetic, Some(FunctionCode::DIV)))
    } else if spells(&chars, "divi") {
        Some((OperationClass::ArithmeticImmediate, Some(FunctionCode::DIV)))
    } else if spells(&chars, "and") {
        Some((OperationClass::Arithmetic, Some(FunctionCode::AND)))
    } else if spells(&chars, "andi") {
        Some((OperationClass::ArithmeticImmediate, Some(FunctionCode::AND)))
    } else if spells(&chars, "or") {
        Some((OperationClass::Arithmetic, Some(FunctionCode::OR)))
    } else if spells(&chars, "ori") {
        Some((OperationClass::ArithmeticImmediate, Some(FunctionCode::OR)))
    } else if spells(&chars, "xor") {
        Some((OperationClass::Arithmetic, Some(FunctionCode::XOR)))
    } else if spells(&chars, "xori") {
        Some((OperationClass::ArithmeticImmediate, Some(FunctionCode::XOR)))
    } else if spells(&chars, "beq") {
        Some((OperationClass::Control, Some(FunctionCode::BEQ)))
    } else if spells(&chars, "bne") {
        Some((OperationClass::Control, Some(FunctionCode::BNE)))
    } else if spells(&chars, "blo") {
        Some((OperationClass::Control, Some(FunctionCode::BLO)))
    } else if spells(&chars, "bgt") {
        Some((OperationClass::Control, Some(FunctionCode::BGT)))
    } else if spells(&chars, "lw") {
        Some((OperationClass::LoadWord, None))
    } else if spells(&chars, "sw") {
        Some((OperationClass::StoreWord, None))
    } else {
        None
    }
}

/// The register sigil and the operand separator.
pub open spec fn is_decoration(c: char) -> bool {
    c == '$' || c == ','
}

/// An operand token without its decoration characters, wherever they stand.
pub open spec fn stripped(token: Seq<char>) -> Seq<char> {
    token.filter(|c: char| !is_decoration(c))
}

fn strip_chars(token: &str) -> (chars: Vec<char>)
    ensures
        chars@ == stripped(token@),
{
    let mut chars: Vec<char> = Vec::new();
    proof {
        reveal(Seq::filter);
    }
    for c in it: token.chars()
        invariant
            it.seq() == token@,
            chars@ == stripped(token@.take(it.index())),
    {
        proof {
            reveal(Seq::filter);
            let k = it.index();
            assert(token@.take(k + 1).drop_last() == token@.take(k));
        }
        if c != '$' && c != ',' {
            chars.push(c);
        }
    }
    assert(token@.take(token@.len() as int) == token@);
    chars
}

/// Removes the register sigil `$` and the separator `,` from an operand
/// token.
pub fn strip_operand(token: &str) -> (s: String)
    ensures
        s@ == stripped(token@),
{
    let chars = strip_chars(token);
    string_of(&chars, 0, chars.len())
}

/// A register operand: a numeral that denotes a register number.
pub open spec fn register_operand(text: Seq<char>) -> Result<OperandView, ErrorKindView> {
    if !is_numeral(text) {
        Err(ErrorKindView::MalformedOperand)
    } else if numeral_value(text) > MAX_REGISTER {
        Err(ErrorKindView::OperandOutOfRange)
    } else {
        Ok(OperandView::Register(numeral_value(text) as u32))
    }
}

/// A constant operand: a numeral that fits the twelve-bit immediate field.
pub open spec fn constant_operand(text: Seq<char>) -> Result<OperandView, ErrorKindView> {
    if !is_numeral(text) {
        Err(ErrorKindView::MalformedOperand)
    } else if numeral_value(text) > MAX_CONSTANT {
        Err(ErrorKindView::OperandOutOfRange)
    } else {
        Ok(OperandView::Constant(numeral_value(text) as u32))
    }
}

/// The third operand of an instruction of class `operation`: a register, a
/// constant, or a label name taken as it stands.
pub open spec fn third_operand(operation: OperationClass, text: Seq<char>) -> Result<
    OperandView,
    ErrorKindView,
> {
    match third_operand_kind(operation) {
        OperandKind::Register => register_operand(text),
        OperandKind::Constant => constant_operand(text),
        OperandKind::Label => Ok(OperandView::Label(text)),
    }
}

/// What one token line parses to.
///
/// A blank line and a line whose leading token is no mnemonic yield no
/// instruction and no error. A line with a mnemonic needs three operand
/// tokens after it; a missing one is a malformed operand. The operands are
/// read in order and the first that fails decides the error. Tokens after the
/// third operand are ignored.
pub open spec fn parse_line(line: Seq<Seq<char>>) -> Result<Option<InstructionView>, ErrorKindView> {
    if line.len() == 0 {
        Ok(None)
    } else {
        match mnemonic(line[0]) {
            None => Ok(None),
            Some((operation, function)) => {
                if line.len() < 4 {
                    Err(ErrorKindView::MalformedOperand)
                } else {
                    match register_operand(stripped(line[1])) {
                        Err(e) => Err(e),
                        Ok(op1) => match register_operand(stripped(line[2])) {
                            Err(e) => Err(e),
                            Ok(op2) => match third_operand(operation, stripped(line[3])) {
                                Err(e) => Err(e),
                                Ok(op3) => Ok(
                                    Some(InstructionView { operation, function, op1, op2, op3 }),
                                ),
                            },
                        },
                    }
                }
            },
        }
    }
}

/// The model of the result of parsing one operand.
pub open spec fn operand_result(r: Result<Operand, ErrorKind>) -> Result<OperandView, ErrorKindView> {
    match r {
        Ok(operand) => Ok(operand@),
        Err(e) => Err(e@),
    }
}

/// The model of the result of parsing one line.
pub open spec fn line_result(r: Result<Option<Instruction>, ErrorKind>) -> Result<
    Option<InstructionView>,
    ErrorKindView,
> {
    match r {
        Ok(Some(instruction)) => Ok(Some(instruction@)),
        Ok(None) => Ok(None),
        Err(e) => Err(e@),
    }
}

fn parse_register(text: &Vec<char>) -> (r: Result<Operand, ErrorKind>)
    ensures
        operand_result(r) == register_operand(text@),
{
    match parse_numeral(text, MAX_REGISTER + 1) {
        None => Err(ErrorKind::MalformedOperand),
        Some(n) => if n > MAX_REGISTER {
            Err(ErrorKind::OperandOutOfRange)
        } else {
            Ok(Operand::Register(n))
        },
    }
}

fn parse_constant(text: &Vec<char>) -> (r: Result<Operand, ErrorKind>)
    ensures
        operand_result(r) == constant_operand(text@),
{
    match parse_numeral(text, MAX_CONSTANT + 1) {
        None => Err(ErrorKind::MalformedOperand),
        Some(n) => if n > MAX_CONSTANT {
            Err(ErrorKind::OperandOutOfRange)
        } else {
            Ok(Operand::Constant(n))
        },
    }
}

fn parse_third(operation: OperationClass, text: &Vec<char>) -> (r: Result<Operand, ErrorKind>)
    ensures
        operand_result(r) == third_operand(operation, text@),
{
    match operation {
        OperationClass::Arithmetic => parse_register(text),
        OperationClass::Control => {
            assert(text@.subrange(0, text@.len() as int) == text@);
            Ok(Operand::Label(string_of(text, 0, text.len())))
        },
        _ => parse_constant(text),
    }
}

/// Parses one token line into an instruction.
///
/// Returns `Ok(None)` for a line that holds no instruction (a blank line, or
/// a leading token outside the mnemonic table), the instruction when the
/// mnemonic is known and its three operands are valid, and otherwise the
/// error of the first operand that is not.
pub fn parse_instruction(line: &Vec<String>) -> (r: Result<Option<Instruction>, ErrorKind>)
    ensures
        line_result(r) == parse_line(line.deep_view()),
        r matches Ok(Some(instruction)) ==> instruction@.well_formed(),
{
    let ghost tokens = line.deep_view();
    if line.len() == 0 {
        return Ok(None);
    }
    assert(tokens[0] == line[0]@);
    let (operation, function) = match resolve_mnemonic(line[0].as_str()) {
        None => {
            return Ok(None);
        },
        Some(entry) => entry,
    };
    if line.len() < 4 {
        return Err(ErrorKind::MalformedOperand);
    }
    assert(tokens[1] == line[1]@ && tokens[2] == line[2]@ && tokens[3] == line[3]@);
    let op1 = match parse_register(&strip_chars(line[1].as_str())) {
        Err(e) => {
            return Err(e);
        },
        Ok(operand) => operand,
    };
    let op2 = match parse_register(&strip_chars(line[2].as_str())) {
        Err(e) => {
            return Err(e);
        },
        Ok(operand) => operand,
    };
    let op3 = match parse_third(operation, &strip_chars(line[3].as_str())) {
        Err(e) => {
            return Err(e);
        },
        Ok(operand) => operand,
    };
    Ok(Some(Instruction { operation, function, op1, op2, op3 }))
}

} // verus!
