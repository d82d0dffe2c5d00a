//! The instruction set: operation classes, function codes, operands and
//! instructions, with the numeric codes the encoding uses.
use vstd::prelude::*;

verus! {

/// Coarse category of an instruction. It fixes the top three bits of the
/// encoded word and the kind of the third operand.
#[derive(Clone, Copy, Debug, PartialEq, Eq, Structural)]
pub enum OperationClass {
    Arithmetic,
    ArithmeticImmediate,
    Control,
    LoadWord,
    StoreWord,
}

/// Fine-grained operation selector. Arithmetic and branch selectors share
/// the numeric space: `ADD`/`BEQ`, `SUB`/`BNE`, `MUL`/`BLO` and `DIV`/`BGT`
/// carry the same code.
#[derive(Clone, Copy, Debug, PartialEq, Eq, Structural)]
pub enum FunctionCode {
    ADD,
    SUB,
    MUL,
    DIV,
    AND,
    OR,
    XOR,
    BEQ,
    BNE,
    BLO,
    BGT,
}

/// What an operand denotes.
#[derive(Clone, Copy, Debug, PartialEq, Eq, Structural)]
pub enum OperandKind {
    Register,
    Constant,
    Label,
}

/// One operand of an instruction: a register number, an immediate constant,
/// or the name of a branch target.
#[derive(Debug, PartialEq, Eq)]
pub enum Operand {
    Register(u32),
    Constant(u32),
    Label(String),
}

/// Mathematical model of an [`Operand`].
pub enum OperandView {
    Register(u32),
    Constant(u32),
    Label(Seq<char>),
}

impl View for Operand {
    type V = OperandView;

    open spec fn view(&self) -> OperandView {
        match self {
            Operand::Register(n) => OperandView::Register(*n),
            Operand::Constant(n) => OperandView::Constant(*n),
            Operand::Label(name) => OperandView::Label(name@),
        }
    }
}

impl OperandView {
    pub open spec fn kind(self) -> OperandKind {
        match self {
            OperandView::Register(_) => OperandKind::Register,
            OperandView::Constant(_) => OperandKind::Constant,
            OperandView::Label(_) => OperandKind::Label,
        }
    }
}

impl Operand {
    /// The kind of this operand.
    pub fn kind(&self) -> (k: OperandKind)
        ensures
            k == self@.kind(),
    {
        match self {
            Operand::Register(_) => OperandKind::Register,
            Operand::Constant(_) => OperandKind::Constant,
            Operand::Label(_) => OperandKind::Label,
        }
    }
}

/// A parsed instruction.
#[derive(Debug, PartialEq, Eq)]
pub struct Instruction {
    pub operation: OperationClass,
    pub function: Option<FunctionCode>,
    pub op1: Operand,
    pub op2: Operand,
    pub op3: Operand,
}

/// Mathematical model of an [`Instruction`].
pub struct InstructionView {
    pub operation: OperationClass,
    pub function: Option<FunctionCode>,
    pub op1: OperandView,
    pub op2: OperandView,
    pub op3: OperandView,
}

impl View for Instruction {
    type V = InstructionView;

    open spec fn view(&self) -> InstructionView {
        InstructionView {
            operation: self.operation,
            function: self.function,
            op1: self.op1@,
            op2: self.op2@,
            op3: self.op3@,
        }
    }
}

/// The kind of third operand each operation class takes.
pub open spec fn third_operand_kind(operation: OperationClass) -> OperandKind {
    match operation {
        OperationClass::Arithmetic => OperandKind::Register,
        OperationClass::ArithmeticImmediate => OperandKind::Constant,
        OperationClass::Control => OperandKind::Label,
        OperationClass::LoadWord => OperandKind::Constant,
        OperationClass::StoreWord => OperandKind::Constant,
    }
}

impl InstructionView {
    /// The first two operands are registers, the third has the kind its
    /// operation class takes, and a function code is present exactly when
    /// the class is not a load or a store.
    pub open spec fn well_formed(self) -> bool {
        &&& self.op1 is Register
        &&& self.op2 is Register
        &&& self.op3.kind() == third_operand_kind(self.operation)
        &&& self.function is None <==> (self.operation is LoadWord || self.operation is StoreWord)
    }
}

fn third_operand_kind_of(operation: OperationClass) -> (kind: OperandKind)
    ensures
        kind == third_operand_kind(operation),
{
    match operation {
        OperationClass::Arithmetic => OperandKind::Register,
        OperationClass::Control => OperandKind::Label,
        _ => OperandKind::Constant,
    }
}

impl Instruction {
    /// Decides whether the operands have the kinds that the operation
    /// class takes and the function code is present where it must be.
    pub fn is_well_formed(&self) -> (r: bool)
        ensures
            r == self@.well_formed(),
    {
        let memory = match self.operation {
            OperationClass::LoadWord => true,
            OperationClass::StoreWord => true,
            _ => false,
        };
        self.op1.kind() == OperandKind::Register && self.op2.kind() == OperandKind::Register
            && self.op3.kind() == third_operand_kind_of(self.operation) && self.function.is_none()
            == memory
    }
}

/// What can be wrong with one source line or one instruction.
#[derive(Debug, PartialEq, Eq)]
pub enum ErrorKind {
    /// An operand that must be a number is missing or is no unsigned
    /// decimal numeral.
    MalformedOperand,
    /// A register number above 63, or a constant or label index above 4095.
    OperandOutOfRange,
    /// A branch names a label that the program does not define.
    UnresolvedLabel { name: String },
}

/// Mathematical model of an [`ErrorKind`].
pub enum ErrorKindView {
    MalformedOperand,
    OperandOutOfRange,
    UnresolvedLabel { name: Seq<char> },
}

impl View for ErrorKind {
    type V = ErrorKindView;

    open spec fn view(&self) -> ErrorKindView {
        match self {
            ErrorKind::MalformedOperand => ErrorKindView::MalformedOperand,
            ErrorKind::OperandOutOfRange => ErrorKindView::OperandOutOfRange,
            ErrorKind::UnresolvedLabel { name } => ErrorKindView::UnresolvedLabel { name: name@ },
        }
    }
}

} // verus!
