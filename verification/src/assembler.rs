//! The two passes over a tokenized program: the label pass, then the
//! encoding of every instruction line against the completed label table.
use vstd::prelude::*;
use crate::encoder::{encode, print_instruction};
use crate::isa::{ErrorKind, ErrorKindView};
use crate::labels::{
    build_label_table, defined_label, instruction_count, is_instruction_line, is_label_line,
    label_name, label_table, lemma_instruction_count_bound, lemma_label_lookup, LabelTable,
};
use crate::parser::{mnemonic, parse_instruction, parse_line, resolve_mnemonic};
use crate::tokenizer::{tokenize, tokenize_string};

verus! {

/// An error, with the source line it was found on.
#[derive(Debug, PartialEq, Eq)]
pub struct AsmError {
    /// Index of the source line, counted from zero.
    pub line: usize,
    pub kind: ErrorKind,
}

/// Mathematical model of an [`AsmError`].
pub struct AsmErrorView {
    pub line: usize,
    pub kind: ErrorKindView,
}

impl View for AsmError {
    type V = AsmErrorView;

    open spec fn view(&self) -> AsmErrorView {
        AsmErrorView { line: self.line, kind: self.kind@ }
    }
}

impl DeepView for AsmError {
    type V = AsmErrorView;

    open spec fn deep_view(&self) -> AsmErrorView {
        self@
    }
}

/// What one line contributes to the program: nothing for a label
/// definition or a line that holds no instruction, otherwise the word of its
/// instruction, or the error found in parsing or encoding it.
pub open spec fn line_outcome(line: Seq<Seq<char>>, labels: Map<Seq<char>, usize>) -> Result<
    Option<u32>,
    ErrorKindView,
> {
    if is_label_line(line) {
        Ok(None)
    } else {
        match parse_line(line) {
            Err(e) => Err(e),
            Ok(None) => Ok(None),
            Ok(Some(instruction)) => match encode(instruction, labels) {
                Err(e) => Err(e),
                Ok(word) => Ok(Some(word)),
            },
        }
    }
}

/// The words of the lines that encode, in line order.
pub open spec fn assembled_words(lines: Seq<Seq<Seq<char>>>, labels: Map<Seq<char>, usize>) -> Seq<
    u32,
>
    decreases lines.len(),
{
    if lines.len() == 0 {
        Seq::empty()
    } else {
        let before = assembled_words(lines.drop_last(), labels);
        match line_outcome(lines.last(), labels) {
            Ok(Some(word)) => before.push(word),
            _ => before,
        }
    }
}

/// The errors of the lines that fail, in line order, each with the index of
/// its line.
pub open spec fn assembly_errors(lines: Seq<Seq<Seq<char>>>, labels: Map<Seq<char>, usize>) -> Seq<
    AsmErrorView,
>
    decreases lines.len(),
{
    if lines.len() == 0 {
        Seq::empty()
    } else {
        let before = assembly_errors(lines.drop_last(), labels);
        match line_outcome(lines.last(), labels) {
            Err(kind) => before.push(AsmErrorView { line: (lines.len() - 1) as usize, kind }),
            _ => before,
        }
    }
}

/// The result of assembling a tokenized program: the words of all its
/// instructions when no line fails, and otherwise every error, with no
/// words at all.
pub open spec fn assembly(lines: Seq<Seq<Seq<char>>>) -> Result<Seq<u32>, Seq<AsmErrorView>> {
    let labels = label_table(lines);
    if assembly_errors(lines, labels).len() == 0 {
        Ok(assembled_words(lines, labels))
    } else {
        Err(assembly_errors(lines, labels))
    }
}

/// A line that is dropped without a word and without an error although it
/// is neither blank nor a label definition: its leading token is no
/// mnemonic.
pub open spec fn is_dropped_line(line: Seq<Seq<char>>) -> bool {
    line.len() > 0 && !is_label_line(line) && mnemonic(line[0]) is None
}

/// The indices of the dropped lines, in order.
pub open spec fn dropped_lines(lines: Seq<Seq<Seq<char>>>) -> Seq<usize>
    decreases lines.len(),
{
    if lines.len() == 0 {
        Seq::empty()
    } else {
        let before = dropped_lines(lines.drop_last());
        if is_dropped_line(lines.last()) {
            before.push((lines.len() - 1) as usize)
        } else {
            before
        }
    }
}

/// A line whose leading token is no mnemonic yields no word and raises no
/// error, whatever follows the token and whatever the label table holds.
pub proof fn lemma_unknown_line_yields_nothing(
    line: Seq<Seq<char>>,
    labels: Map<Seq<char>, usize>,
)
    requires
        line.len() > 0,
        mnemonic(line[0]) is None,
    ensures
        parse_line(line) == Ok::<Option<crate::isa::InstructionView>, ErrorKindView>(None),
        line_outcome(line, labels) == Ok::<Option<u32>, ErrorKindView>(None),
{
}

/// An instruction that a line parses to is well formed and holds its
/// registers and its constant within their ranges, so that only a label can
/// make its encoding fail: one that the table does not define, or defines
/// with an index above 4095.
pub proof fn lemma_parsed_instruction_encodes(
    line: Seq<Seq<char>>,
    labels: Map<Seq<char>, usize>,
)
    requires
        parse_line(line) is Ok,
        parse_line(line)->Ok_0 is Some,
    ensures
        ({
            let instruction = parse_line(line)->Ok_0->Some_0;
            &&& instruction.well_formed()
            &&& match instruction.op3 {
                crate::isa::OperandView::Label(name) => encode(instruction, labels) is Ok <==> (
                labels.contains_key(name) && labels[name] <= 4095),
                _ => encode(instruction, labels) is Ok,
            }
        }),
{
}

/// A line yields a word or an error exactly when it is an instruction line.
pub proof fn lemma_outcome_of_instruction_line(
    line: Seq<Seq<char>>,
    labels: Map<Seq<char>, usize>,
)
    ensures
        is_instruction_line(line) <==> line_outcome(line, labels) != Ok::<
            Option<u32>,
            ErrorKindView,
        >(None),
{
}

/// Every instruction line yields one word or one error, and no other line
/// yields either.
pub proof fn lemma_one_outcome_per_instruction(
    lines: Seq<Seq<Seq<char>>>,
    labels: Map<Seq<char>, usize>,
)
    ensures
        assembled_words(lines, labels).len() + assembly_errors(lines, labels).len()
            == instruction_count(lines),
    decreases lines.len(),
{
    if lines.len() > 0 {
        lemma_one_outcome_per_instruction(lines.drop_last(), labels);
        lemma_outcome_of_instruction_line(lines.last(), labels);
    }
}

/// The first lines of a program raise no more errors than the whole
/// program.
pub proof fn lemma_errors_grow(lines: Seq<Seq<Seq<char>>>, labels: Map<Seq<char>, usize>, k: int)
    requires
        0 <= k <= lines.len(),
    ensures
        assembly_errors(lines.take(k), labels).len() <= assembly_errors(lines, labels).len(),
    decreases lines.len() - k,
{
    if k < lines.len() {
        lemma_errors_grow(lines, labels, k + 1);
        assert(lines.take(k + 1).drop_last() == lines.take(k));
    } else {
        assert(lines.take(k) == lines);
    }
}

/// The errors of a program are those of its failing lines, one for each,
/// in ascending line order.
pub proof fn lemma_errors_are_the_failing_lines(
    lines: Seq<Seq<Seq<char>>>,
    labels: Map<Seq<char>, usize>,
)
    requires
        lines.len() <= usize::MAX,
    ensures
        forall|k: int|
            0 <= k < assembly_errors(lines, labels).len() ==> ({
                let error = #[trigger] assembly_errors(lines, labels)[k];
                error.line < lines.len() && line_outcome(lines[error.line as int], labels) == Err::<
                    Option<u32>,
                    ErrorKindView,
                >(error.kind)
            }),
        forall|j: int, k: int|
            0 <= j < k < assembly_errors(lines, labels).len() ==> (#[trigger] assembly_errors(
                lines,
                labels,
            )[j]).line < (#[trigger] assembly_errors(lines, labels)[k]).line,
        forall|i: int|
            0 <= i < lines.len() && line_outcome(#[trigger] lines[i], labels) is Err ==> exists|
                k: int,
            |
                0 <= k < assembly_errors(lines, labels).len() && (#[trigger] assembly_errors(
                    lines,
                    labels,
                )[k]).line == i,
    decreases lines.len(),
{
    if lines.len() > 0 {
        let before = lines.drop_last();
        let last = lines.len() - 1;
        lemma_errors_are_the_failing_lines(before, labels);
        let errors = assembly_errors(lines, labels);
        let earlier = assembly_errors(before, labels);
        assert forall|k: int| 0 <= k < earlier.len() implies errors[k] == earlier[k] && (
        #[trigger] earlier[k]).line < last by {
            assert(before[earlier[k].line as int] == lines[earlier[k].line as int]);
        }
        assert forall|k: int| 0 <= k < errors.len() implies {
            let error = #[trigger] errors[k];
            error.line < lines.len() && line_outcome(lines[error.line as int], labels) == Err::<
                Option<u32>,
                ErrorKindView,
            >(error.kind)
        } by {
            if k < earlier.len() {
                assert(errors[k] == earlier[k]);
                assert(before[earlier[k].line as int] == lines[earlier[k].line as int]);
            }
        }
        assert forall|j: int, k: int| 0 <= j < k < errors.len() implies (#[trigger] errors[j]).line
            < (#[trigger] errors[k]).line by {
            assert(errors[j] == earlier[j]);
            if k < earlier.len() {
                assert(errors[k] == earlier[k]);
            }
        }
        assert forall|i: int|
            0 <= i < lines.len() && line_outcome(#[trigger] lines[i], labels) is Err implies exists|
            k: int,
        |
            0 <= k < errors.len() && (#[trigger] errors[k]).line == i by {
            if i < last {
                assert(before[i] == lines[i]);
                let k = choose|k: int|
                    0 <= k < earlier.len() && (#[trigger] earlier[k]).line == i;
                assert(errors[k] == earlier[k]);
            } else {
                assert(errors[errors.len() - 1].line == i);
            }
        }
    }
}

/// In a program that assembles, a label resolves to the index that the
/// next instruction has among the emitted words: the number of words
/// emitted for the lines before the label's last definition. Lines that
/// emit nothing take up no index.
pub proof fn lemma_label_targets(lines: Seq<Seq<Seq<char>>>, k: int)
    requires
        lines.len() <= usize::MAX,
        0 <= k < lines.len(),
        is_label_line(lines[k]),
        forall|j: int|
            k < j < lines.len() && is_label_line(#[trigger] lines[j]) ==> label_name(lines[j][0])
                != label_name(lines[k][0]),
        assembly(lines) is Ok,
    ensures
        label_table(lines).contains_key(label_name(lines[k][0])),
        label_table(lines)[label_name(lines[k][0])] == assembled_words(
            lines.take(k),
            label_table(lines),
        ).len(),
{
    let labels = label_table(lines);
    lemma_label_lookup(lines, k);
    lemma_errors_grow(lines, labels, k);
    lemma_one_outcome_per_instruction(lines.take(k), labels);
    lemma_instruction_count_bound(lines.take(k));
}

/// Putting a line that holds no instruction and defines no label (a blank
/// line, or one with an unknown leading token) anywhere into a program
/// changes neither the label table nor the words that any label table gives,
/// nor the number of errors.
pub proof fn lemma_inert_line(
    lines: Seq<Seq<Seq<char>>>,
    at: int,
    line: Seq<Seq<char>>,
    labels: Map<Seq<char>, usize>,
)
    requires
        0 <= at <= lines.len(),
        !is_label_line(line),
        line.len() > 0 ==> mnemonic(line[0]) is None,
    ensures
        instruction_count(lines.insert(at, line)) == instruction_count(lines),
        label_table(lines.insert(at, line)) == label_table(lines),
        assembled_words(lines.insert(at, line), labels) == assembled_words(lines, labels),
        assembly_errors(lines.insert(at, line), labels).len() == assembly_errors(
            lines,
            labels,
        ).len(),
    decreases lines.len(),
{
    let longer = lines.insert(at, line);
    if at == lines.len() {
        assert(longer.drop_last() == lines);
        assert(longer.last() == line);
    } else {
        let before = lines.drop_last();
        assert(longer.drop_last() == before.insert(at, line));
        assert(longer.last() == lines.last());
        lemma_inert_line(before, at, line, labels);
    }
}

/// A program that assembles still assembles, to the same words, with a
/// line that holds no instruction and defines no label put anywhere into
/// it.
pub proof fn lemma_inert_line_keeps_assembly(
    lines: Seq<Seq<Seq<char>>>,
    at: int,
    line: Seq<Seq<char>>,
)
    requires
        0 <= at <= lines.len(),
        !is_label_line(line),
        line.len() > 0 ==> mnemonic(line[0]) is None,
        assembly(lines) is Ok,
    ensures
        assembly(lines.insert(at, line)) == assembly(lines),
{
    lemma_inert_line(lines, at, line, label_table(lines));
}

/// The model of the result of assembling one line.
pub open spec fn outcome_result(r: Result<Option<u32>, ErrorKind>) -> Result<
    Option<u32>,
    ErrorKindView,
> {
    match r {
        Ok(word) => Ok(word),
        Err(e) => Err(e@),
    }
}

/// The model of the result of assembling a program.
pub open spec fn assembly_result(r: Result<Vec<u32>, Vec<AsmError>>) -> Result<
    Seq<u32>,
    Seq<AsmErrorView>,
> {
    match r {
        Ok(words) => Ok(words@),
        Err(errors) => Err(errors.deep_view()),
    }
}

/// Assembles one line against the completed label table.
pub fn assemble_line(line: &Vec<String>, labels: &LabelTable) -> (r: Result<
    Option<u32>,
    ErrorKind,
>)
    ensures
        outcome_result(r) == line_outcome(line.deep_view(), labels@),
{
    if defined_label(line).is_some() {
        return Ok(None);
    }
    match parse_instruction(line) {
        Err(e) => Err(e),
        Ok(None) => Ok(None),
        Ok(Some(instruction)) => match print_instruction(&instruction, labels) {
            Err(e) => Err(e),
            Ok(word) => Ok(Some(word)),
        },
    }
}

/// The indices of the lines that are dropped because their leading token
/// is no mnemonic. Such lines are no error; the indices are there to be
/// shown as diagnostics.
pub fn find_dropped_lines(lines: &Vec<Vec<String>>) -> (dropped: Vec<usize>)
    ensures
        dropped@ == dropped_lines(lines.deep_view()),
{
    let ghost all = lines.deep_view();
    let mut dropped: Vec<usize> = Vec::new();
    let mut i: usize = 0;
    while i < lines.len()
        invariant
            i <= lines.len(),
            all == lines.deep_view(),
            dropped@ == dropped_lines(all.take(i as int)),
        decreases lines.len() - i,
    {
        proof {
            assert(all.take(i + 1).drop_last() == all.take(i as int));
            assert(all.take(i + 1).last() == lines[i as int].deep_view());
        }
        let line = &lines[i];
        if line.len() > 0 {
            assert(line.deep_view()[0] == line[0]@);
            if defined_label(line).is_none() && resolve_mnemonic(line[0].as_str()).is_none() {
                dropped.push(i);
            }
        }
        i += 1;
    }
    assert(all.take(i as int) == all);
    dropped
}

/// Assembles a tokenized program in two passes.
///
/// The first pass builds the label table. The second encodes every
/// instruction line against it. All failing lines are reported together;
/// when any line fails no word is produced.
pub fn assemble_lines(lines: &Vec<Vec<String>>) -> (r: Result<Vec<u32>, Vec<AsmError>>)
    ensures
        assembly_result(r) == assembly(lines.deep_view()),
{
    let ghost all = lines.deep_view();
    let labels = build_label_table(lines);
    let mut words: Vec<u32> = Vec::new();
    let mut errors: Vec<AsmError> = Vec::new();
    let mut i: usize = 0;
    while i < lines.len()
        invariant
            i <= lines.len(),
            all == lines.deep_view(),
            words@ == assembled_words(all.take(i as int), labels@),
            errors.deep_view() == assembly_errors(all.take(i as int), labels@),
        decreases lines.len() - i,
    {
        proof {
            assert(all.take(i + 1).drop_last() == all.take(i as int));
            assert(all.take(i + 1).last() == lines[i as int].deep_view());
        }
        match assemble_line(&lines[i], &labels) {
            Ok(Some(word)) => {
                words.push(word);
            },
            Ok(None) => {},
            Err(kind) => {
                let ghost before = errors.deep_view();
                let error = AsmError { line: i, kind };
                errors.push(error);
                assert(errors.deep_view() == before.push(error@));
            },
        }
        i += 1;
    }
    assert(all.take(i as int) == all);
    if errors.len() == 0 {
        Ok(words)
    } else {
        Err(errors)
    }
}

/// Assembles source text: tokenizes it, then runs the two passes.
pub fn assemble(program: String) -> (r: Result<Vec<u32>, Vec<AsmError>>)
    ensures
        assembly_result(r) == assembly(tokenize(program@)),
{
    let lines = tokenize_string(program);
    assemble_lines(&lines)
}

} // verus!
