//! The label table: from label name to the index of the instruction the
//! label stands before.
use vstd::prelude::*;
use vstd::hash_map::StringHashMap;
use crate::parser::{mnemonic, resolve_mnemonic};
use crate::text::{chars_of, first_index, lemma_first_index_unique, string_of};

verus! {

/// Maps each label name to an instruction index. A name is held once; a
/// later definition replaces an earlier one.
pub struct LabelTable {
    map: StringHashMap<usize>,
}

impl View for LabelTable {
    type V = Map<Seq<char>, usize>;

    closed spec fn view(&self) -> Map<Seq<char>, usize> {
        self.map@
    }
}

impl LabelTable {
    /// The empty table.
    pub fn new() -> (table: LabelTable)
        ensures
            table@ == Map::<Seq<char>, usize>::empty(),
    {
        LabelTable { map: StringHashMap::new() }
    }

    /// Defines `name` as `index`, replacing any earlier definition.
    pub fn insert(&mut self, name: String, index: usize)
        ensures
            final(self)@ == old(self)@.insert(name@, index),
    {
        self.map.insert(name, index);
    }

    /// The index that `name` is defined as, if it is defined.
    pub fn get(&self, name: &str) -> (index: Option<usize>)
        ensures
            index == if self@.contains_key(name@) {
                Some(self@[name@])
            } else {
                None
            },
    {
        match self.map.get(name) {
            Some(index) => Some(*index),
            None => None,
        }
    }

    /// The number of names defined.
    pub fn len(&self) -> (n: usize)
        ensures
            n == self@.len(),
    {
        self.map.len()
    }
}

/// The character that ends a label definition.
pub open spec fn is_label_end(c: char) -> bool {
    c == ':'
}

/// `is_label_end` as a predicate value.
pub open spec fn label_end() -> spec_fn(char) -> bool {
    |c: char| is_label_end(c)
}

/// A line defines a label when its first token ends with a colon. Whatever
/// follows that token on the line is ignored.
pub open spec fn is_label_line(line: Seq<Seq<char>>) -> bool {
    line.len() > 0 && line[0].len() > 0 && line[0].last() == ':'
}

/// The name a label token defines: the token up to its first colon.
pub open spec fn label_name(token: Seq<char>) -> Seq<char> {
    token.take(first_index(token, label_end()))
}

/// A line stands for an instruction when it defines no label and its first
/// token is a mnemonic.
pub open spec fn is_instruction_line(line: Seq<Seq<char>>) -> bool {
    !is_label_line(line) && line.len() > 0 && mnemonic(line[0]) is Some
}

/// The number of instruction lines among `lines`.
pub open spec fn instruction_count(lines: Seq<Seq<Seq<char>>>) -> nat
    decreases lines.len(),
{
    if lines.len() == 0 {
        0
    } else {
        instruction_count(lines.drop_last()) + if is_instruction_line(lines.last()) {
            1nat
        } else {
            0nat
        }
    }
}

/// The label table of a program: each label maps to the number of
/// instruction lines that stand before its definition, which is the index
/// of the instruction that follows it. Lines that stand for no instruction
/// (blank lines, label definitions, lines with an unknown leading token)
/// take up no index: a table that counted lines, and took off only the
/// label definitions, would point one instruction too far behind every line
/// that is dropped. Of two definitions of one name the later counts.
pub open spec fn label_table(lines: Seq<Seq<Seq<char>>>) -> Map<Seq<char>, usize>
    decreases lines.len(),
{
    if lines.len() == 0 {
        Map::empty()
    } else {
        let before = lines.drop_last();
        if is_label_line(lines.last()) {
            label_table(before).insert(
                label_name(lines.last()[0]),
                instruction_count(before) as usize,
            )
        } else {
            label_table(before)
        }
    }
}

/// There are no more instruction lines than lines.
pub proof fn lemma_instruction_count_bound(lines: Seq<Seq<Seq<char>>>)
    ensures
        instruction_count(lines) <= lines.len(),
    decreases lines.len(),
{
    if lines.len() > 0 {
        lemma_instruction_count_bound(lines.drop_last());
    }
}

/// The name that `line` defines, if it is a label definition.
pub fn defined_label(line: &Vec<String>) -> (name: Option<String>)
    ensures
        name is Some <==> is_label_line(line.deep_view()),
        name matches Some(n) ==> n@ == label_name(line.deep_view()[0]),
{
    if line.len() == 0 {
        return None;
    }
    assert(line.deep_view()[0] == line[0]@);
    let token = chars_of(line[0].as_str());
    if token.len() == 0 || token[token.len() - 1] != ':' {
        return None;
    }
    let mut i: usize = 0;
    while token[i] != ':'
        invariant
            i < token.len(),
            token@.last() == ':',
            forall|j: int| 0 <= j < i ==> !is_label_end(#[trigger] token[j]),
        decreases token.len() - i,
    {
        i += 1;
    }
    proof {
        lemma_first_index_unique(token@, label_end(), i as int);
        assert(token@.subrange(0, i as int) == token@.take(i as int));
    }
    Some(string_of(&token, 0, i))
}

/// Whether the first token of `line` is a mnemonic.
fn leads_with_mnemonic(line: &Vec<String>) -> (r: bool)
    ensures
        r == (line.deep_view().len() > 0 && mnemonic(line.deep_view()[0]) is Some),
{
    if line.len() == 0 {
        return false;
    }
    assert(line.deep_view()[0] == line[0]@);
    resolve_mnemonic(line[0].as_str()).is_some()
}

/// A label maps to the number of instruction lines before its last
/// definition: of two definitions of one name the later counts.
pub proof fn lemma_label_lookup(lines: Seq<Seq<Seq<char>>>, k: int)
    requires
        0 <= k < lines.len(),
        is_label_line(lines[k]),
        forall|j: int|
            k < j < lines.len() && is_label_line(#[trigger] lines[j]) ==> label_name(lines[j][0])
                != label_name(lines[k][0]),
    ensures
        label_table(lines).contains_key(label_name(lines[k][0])),
        label_table(lines)[label_name(lines[k][0])] == instruction_count(lines.take(k)) as usize,
    decreases lines.len(),
{
    let before = lines.drop_last();
    if k == lines.len() - 1 {
        assert(before == lines.take(k));
    } else {
        assert(before[k] == lines[k]);
        assert forall|j: int| k < j < before.len() && is_label_line(#[trigger] before[j]) implies
            label_name(before[j][0]) != label_name(before[k][0]) by {
            assert(before[j] == lines[j]);
        }
        lemma_label_lookup(before, k);
        assert(before.take(k) == lines.take(k));
        assert(lines.last() == lines[lines.len() - 1]);
    }
}

/// The table defines exactly the names that some line of the program
/// defines.
pub proof fn lemma_label_defined(lines: Seq<Seq<Seq<char>>>, name: Seq<char>)
    ensures
        label_table(lines).contains_key(name) <==> exists|k: int|
            0 <= k < lines.len() && is_label_line(#[trigger] lines[k]) && label_name(lines[k][0])
                == name,
    decreases lines.len(),
{
    if lines.len() > 0 {
        let before = lines.drop_last();
        let last = lines.len() - 1;
        lemma_label_defined(before, name);
        if label_table(lines).contains_key(name) {
            if is_label_line(lines[last]) && label_name(lines[last][0]) == name {
            } else {
                let k = choose|k: int|
                    0 <= k < before.len() && is_label_line(#[trigger] before[k]) && label_name(
                        before[k][0],
                    ) == name;
                assert(before[k] == lines[k]);
            }
        }
        if exists|k: int|
            0 <= k < lines.len() && is_label_line(#[trigger] lines[k]) && label_name(lines[k][0])
                == name {
            let k = choose|k: int|
                0 <= k < lines.len() && is_label_line(#[trigger] lines[k]) && label_name(
                    lines[k][0],
                ) == name;
            if k < last {
                assert(before[k] == lines[k]);
            }
        }
    }
}

/// The first pass: scans the token lines once, in order, and builds the
/// label table.
pub fn build_label_table(lines: &Vec<Vec<String>>) -> (table: LabelTable)
    ensures
        table@ == label_table(lines.deep_view()),
{
    let ghost all = lines.deep_view();
    let mut table = LabelTable::new();
    let mut count: usize = 0;
    let mut i: usize = 0;
    while i < lines.len()
        invariant
            i <= lines.len(),
            all == lines.deep_view(),
            count == instruction_count(all.take(i as int)),
            table@ == label_table(all.take(i as int)),
        decreases lines.len() - i,
    {
        proof {
            assert(all.take(i + 1).drop_last() == all.take(i as int));
            assert(all.take(i + 1).last() == lines[i as int].deep_view());
            lemma_instruction_count_bound(all.take(i + 1));
        }
        match defined_label(&lines[i]) {
            Some(name) => {
                table.insert(name, count);
            },
            None => {
                if leads_with_mnemonic(&lines[i]) {
                    count += 1;
                }
            },
        }
        i += 1;
    }
    assert(all.take(i as int) == all);
    table
}

} // verus!
