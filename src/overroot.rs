//! The assembler driver: classifies source lines, keeps the symbol table and
//! the instructions, and encodes the program.
use vstd::prelude::*;

use crate::error::{AsmError, Fault};
use crate::instruction::{encoding, hex_text, instruction_of_line, Instruction};
use crate::symbols::{subst, SymbolTable};
use crate::text::{
    chars_of, contains_pair, find_pair, lines, pair_at, push_char, split_lines, split_tokens,
    string_of, tokens, trim, trim_bounds, views,
};

verus! {

/// The state of an assembly run: constants, labels and the instructions so far.
pub struct AsmState {
    pub constants: Map<Seq<char>, Seq<char>>,
    pub labels: Map<Seq<char>, usize>,
    pub instructions: Seq<Instruction>,
}

/// The state before any line is read.
pub open spec fn initial_state() -> AsmState {
    AsmState { constants: Map::empty(), labels: Map::empty(), instructions: seq![] }
}

/// A comment line starts with three slashes.
pub open spec fn is_comment(line: Seq<char>) -> bool {
    line.len() >= 3 && line[0] == '/' && line[1] == '/' && line[2] == '/'
}

/// A blank line holds nothing but whitespace.
pub open spec fn is_blank(line: Seq<char>) -> bool {
    trim(line).len() == 0
}

/// The pieces joined, one space between two.
pub open spec fn join(ts: Seq<Seq<char>>) -> Seq<char>
    decreases ts.len(),
{
    if ts.len() == 0 {
        seq![]
    } else if ts.len() == 1 {
        ts[0]
    } else {
        join(ts.drop_last()) + seq![' '] + ts.last()
    }
}

/// Each token with constant substitution applied once.
pub open spec fn subst_all(m: Map<Seq<char>, Seq<char>>, ts: Seq<Seq<char>>) -> Seq<Seq<char>> {
    ts.map_values(|t: Seq<char>| subst(m, t))
}

/// An instruction line after constant substitution: its substituted tokens,
/// joined by single spaces.
pub open spec fn substituted_line(m: Map<Seq<char>, Seq<char>>, line: Seq<char>) -> Seq<char> {
    join(subst_all(m, tokens(line)))
}

/// Whether `:=` stands at position `i` of `line` and nowhere else.
pub open spec fn sole_assignment_at(line: Seq<char>, i: int) -> bool {
    pair_at(line, i, ':', '=') && forall|j: int| #[trigger] pair_at(line, j, ':', '=') ==> j == i
}

/// The name and value of a constant line `name := value`: exactly one `:=`,
/// and both sides non-empty once trimmed.
pub open spec fn constant_definition(line: Seq<char>) -> Option<(Seq<char>, Seq<char>)> {
    if exists|i: int| #[trigger] sole_assignment_at(line, i) {
        let i = choose|i: int| #[trigger] sole_assignment_at(line, i);
        let name = trim(line.take(i));
        let value = trim(line.skip(i + 2));
        if name.len() > 0 && value.len() > 0 {
            Some((name, value))
        } else {
            None
        }
    } else {
        None
    }
}

proof fn lemma_two_pairs(line: Seq<char>, p: int, q: int)
    requires
        pair_at(line, p, ':', '='),
        pair_at(line, q, ':', '='),
        p != q,
    ensures
        constant_definition(line) is None,
{
    assert forall|i: int| !#[trigger] sole_assignment_at(line, i) by {
        if i == p {
            assert(pair_at(line, q, ':', '='));
        } else {
            assert(pair_at(line, p, ':', '='));
        }
    }
}

proof fn lemma_one_pair(line: Seq<char>, p: int)
    requires
        pair_at(line, p, ':', '='),
        forall|j: int| j != p ==> !pair_at(line, j, ':', '='),
    ensures
        constant_definition(line) == (if trim(line.take(p)).len() > 0 && trim(line.skip(p + 2)).len()
            > 0 {
            Some((trim(line.take(p)), trim(line.skip(p + 2))))
        } else {
            None
        }),
{
    assert(sole_assignment_at(line, p));
    let i = choose|i: int| #[trigger] sole_assignment_at(line, i);
    assert(i == p);
}

/// What one source line does to the state: blank lines and comments nothing;
/// a line with `::` binds a label to the number of instructions so far; else
/// a line with `:=` defines a constant; else the line is an instruction,
/// built after substitution.
pub open spec fn step(st: AsmState, line: Seq<char>) -> Result<AsmState, Fault> {
    if is_blank(line) || is_comment(line) {
        Ok(st)
    } else if contains_pair(line, ':', ':') {
        if st.labels.contains_key(line) {
            Err(Fault::AmbiguousLabel(line))
        } else {
            Ok(
                AsmState {
                    labels: st.labels.insert(line, st.instructions.len() as usize),
                    ..st
                },
            )
        }
    } else if contains_pair(line, ':', '=') {
        match constant_definition(line) {
            None => Err(Fault::InvalidConstantFormat(line)),
            Some((n, v)) => Ok(AsmState { constants: st.constants.insert(n, v), ..st }),
        }
    } else {
        match instruction_of_line(substituted_line(st.constants, line)) {
            Err(e) => Err(e),
            Ok(i) => Ok(AsmState { instructions: st.instructions.push(i), ..st }),
        }
    }
}

/// The lines read in order from `st`, stopping at the first error.
pub open spec fn run(st: AsmState, ls: Seq<Seq<char>>) -> Result<AsmState, Fault>
    decreases ls.len(),
{
    if ls.len() == 0 {
        Ok(st)
    } else {
        match step(st, ls[0]) {
            Err(e) => Err(e),
            Ok(next) => run(next, ls.drop_first()),
        }
    }
}

/// What assembling a source text gives.
pub open spec fn assemble(source: Seq<char>) -> Result<AsmState, Fault> {
    run(initial_state(), lines(source))
}

/// The hexadecimal text of an instruction that has an opcode.
pub open spec fn hex_of(i: Instruction) -> Seq<char> {
    hex_text(encoding(i)->0)
}

/// The bytes of a program whose instructions all have opcodes, in order.
pub open spec fn program_bytes(instrs: Seq<Instruction>) -> Seq<u8>
    decreases instrs.len(),
{
    if instrs.len() == 0 {
        seq![]
    } else {
        program_bytes(instrs.drop_last()) + encoding(instrs.last())->0
    }
}

/// An assembled program: its symbol table and its instructions, in order.
#[derive(Debug)]
pub struct Overroot {
    symbols: SymbolTable,
    instructions: Vec<Instruction>,
}

impl View for Overroot {
    type V = AsmState;

    closed spec fn view(&self) -> AsmState {
        AsmState {
            constants: self.symbols.constants(),
            labels: self.symbols.labels(),
            instructions: self.instructions@,
        }
    }
}

impl Overroot {
    /// The symbol table is well formed.
    pub closed spec fn wf(&self) -> bool {
        self.symbols.wf()
    }

    /// An empty program.
    pub fn new() -> (r: Overroot)
        ensures
            r.wf(),
            r@ == initial_state(),
    {
        Overroot { symbols: SymbolTable::new(), instructions: Vec::new() }
    }

    /// The instructions so far.
    pub fn instructions(&self) -> (r: &Vec<Instruction>)
        ensures
            r@ == self@.instructions,
    {
        &self.instructions
    }

    /// The symbol table.
    pub fn symbols(&self) -> (r: &SymbolTable)
        requires
            self.wf(),
        ensures
            r.wf(),
            r.constants() == self@.constants,
            r.labels() == self@.labels,
    {
        &self.symbols
    }

    /// Binds the label line to the number of instructions so far.
    pub fn insert_label(&mut self, line: &str) -> (r: Result<(), AsmError>)
        requires
            old(self).wf(),
        ensures
            final(self).wf(),
            old(self)@.labels.contains_key(line@) ==> final(self)@ == old(self)@ && r is Err
                && r->Err_0@ == Fault::AmbiguousLabel(line@),
            !old(self)@.labels.contains_key(line@) ==> r is Ok && final(self)@ == (AsmState {
                labels: old(self)@.labels.insert(line@, old(self)@.instructions.len() as usize),
                ..old(self)@
            }),
    {
        let n = self.instructions.len();
        let r = self.symbols.define_label(line.to_owned(), n);
        assert(self@ =~= old(self)@ || self@ == (AsmState {
            labels: old(self)@.labels.insert(line@, old(self)@.instructions.len() as usize),
            ..old(self)@
        }));
        r
    }

    /// Defines the constant of a line `name := value`.
    pub fn insert_constant(&mut self, line: &str) -> (r: Result<(), AsmError>)
        requires
            old(self).wf(),
        ensures
            final(self).wf(),
            constant_definition(line@) is None ==> final(self)@ == old(self)@ && r is Err
                && r->Err_0@ == Fault::InvalidConstantFormat(line@),
            constant_definition(line@) matches Some((n, v)) ==> r is Ok && final(self)@ == (
            AsmState { constants: old(self)@.constants.insert(n, v), ..old(self)@ }),
    {
        let cs = chars_of(line);
        let len = cs.len();
        let p = match find_pair(&cs, ':', '=', 0) {
            Some(p) => p,
            None => {
                return Err(AsmError::InvalidConstantFormat { line: line.to_owned() });
            },
        };
        if let Some(q) = find_pair(&cs, ':', '=', p + 1) {
            proof {
                lemma_two_pairs(line@, p as int, q as int);
            }
            return Err(AsmError::InvalidConstantFormat { line: line.to_owned() });
        }
        proof {
            lemma_one_pair(line@, p as int);
        }
        assert(line@.take(p as int) =~= cs@.subrange(0, p as int));
        assert(line@.skip(p + 2) =~= cs@.subrange(p + 2, len as int));
        let (a, b) = trim_bounds(&cs, 0, p);
        let (c, d) = trim_bounds(&cs, p + 2, len);
        if a == b || c == d {
            return Err(AsmError::InvalidConstantFormat { line: line.to_owned() });
        }
        let name = string_of(&cs, a, b);
        let value = string_of(&cs, c, d);
        self.symbols.define_constant(name, value);
        Ok(())
    }

    /// The line after constant substitution.
    fn substitute_line(&self, line: &str) -> (r: String)
        requires
            self.wf(),
        ensures
            r@ == substituted_line(self@.constants, line@),
    {
        let toks = split_tokens(line);
        let ghost subs = subst_all(self@.constants, tokens(line@));
        let mut out = String::new();
        let mut i: usize = 0;
        assert(subs.take(0) =~= Seq::<Seq<char>>::empty());
        while i < toks.len()
            invariant
                self.wf(),
                views(toks@) == tokens(line@),
                subs == subst_all(self@.constants, tokens(line@)),
                i <= toks@.len(),
                out@ == join(subs.take(i as int)),
            decreases toks@.len() - i,
        {
            assert(toks@[i as int]@ == tokens(line@)[i as int]);
            let t = self.symbols.substitute(toks[i].as_str());
            let ghost prev = out@;
            if i > 0 {
                push_char(&mut out, ' ');
            }
            out.append(t.as_str());
            assert(subs.take(i + 1).drop_last() =~= subs.take(i as int));
            assert(subs.take(i + 1).last() == t@);
            if i == 0 {
                assert(out@ =~= join(subs.take(1)));
            } else {
                assert(out@ =~= prev + seq![' '] + t@);
            }
            i += 1;
        }
        assert(subs.take(i as int) =~= subs);
        out
    }

    /// Builds the instruction of a line after constant substitution and
    /// appends it. On an error nothing changes.
    pub fn push_instruction(&mut self, line: &str) -> (r: Result<(), AsmError>)
        requires
            old(self).wf(),
        ensures
            final(self).wf(),
            match instruction_of_line(substituted_line(old(self)@.constants, line@)) {
                Ok(i) => r is Ok && final(self)@ == (AsmState {
                    instructions: old(self)@.instructions.push(i),
                    ..old(self)@
                }),
                Err(e) => r is Err && r->Err_0@ == e && final(self)@ == old(self)@,
            },
    {
        let text = self.substitute_line(line);
        match Instruction::build(text.as_str()) {
            Ok(i) => {
                self.instructions.push(i);
                Ok(())
            },
            Err(e) => Err(e),
        }
    }

    /// Reads one source line. On an error nothing changes.
    pub fn process_line(&mut self, line: &str) -> (r: Result<(), AsmError>)
        requires
            old(self).wf(),
        ensures
            final(self).wf(),
            match step(old(self)@, line@) {
                Ok(st) => r is Ok && final(self)@ == st,
                Err(e) => r is Err && r->Err_0@ == e && final(self)@ == old(self)@,
            },
    {
        let cs = chars_of(line);
        let len = cs.len();
        assert(cs@.subrange(0, len as int) =~= line@);
        let (a, b) = trim_bounds(&cs, 0, len);
        if a == b {
            return Ok(());
        }
        if len >= 3 && cs[0] == '/' && cs[1] == '/' && cs[2] == '/' {
            return Ok(());
        }
        if find_pair(&cs, ':', ':', 0).is_some() {
            self.insert_label(line)
        } else if find_pair(&cs, ':', '=', 0).is_some() {
            self.insert_constant(line)
        } else {
            self.push_instruction(line)
        }
    }

    /// Assembles a source text line by line, stopping at the first error.
    pub fn from_source(contents: &str) -> (r: Result<Overroot, AsmError>)
        ensures
            match assemble(contents@) {
                Ok(st) => r is Ok && r->Ok_0.wf() && r->Ok_0@ == st,
                Err(e) => r is Err && r->Err_0@ == e,
            },
    {
        let ls = split_lines(contents);
        let mut prog = Overroot::new();
        let mut i: usize = 0;
        assert(views(ls@).skip(0) =~= views(ls@));
        while i < ls.len()
            invariant
                prog.wf(),
                i <= ls@.len(),
                views(ls@) == lines(contents@),
                run(prog@, views(ls@).skip(i as int)) == assemble(contents@),
            decreases ls@.len() - i,
        {
            assert(views(ls@).skip(i as int)[0] == ls@[i as int]@);
            assert(views(ls@).skip(i as int).drop_first() =~= views(ls@).skip(i + 1));
            match prog.process_line(ls[i].as_str()) {
                Ok(()) => {},
                Err(e) => {
                    return Err(e);
                },
            }
            i += 1;
        }
        assert(views(ls@).skip(i as int) =~= Seq::<Seq<char>>::empty());
        Ok(prog)
    }

    /// The program as packed bytes, three for each instruction, in order.
    /// Fails at the first instruction that has no opcode.
    pub fn encode_bytes(&self) -> (r: Result<Vec<u8>, AsmError>)
        ensures
            match r {
                Ok(v) => (forall|i: int|
                    0 <= i < self@.instructions.len() ==> (#[trigger] encoding(
                        self@.instructions[i],
                    )) is Some) && v@ == program_bytes(self@.instructions),
                Err(e) => exists|j: int|
                    0 <= j < self@.instructions.len() && encoding(self@.instructions[j]) is None
                        && (forall|k: int|
                        0 <= k < j ==> (#[trigger] encoding(self@.instructions[k])) is Some)
                        && e@ == Fault::UnimplementedOperation(self@.instructions[j]),
            },
    {
        let ghost all = self@.instructions;
        let mut out: Vec<u8> = Vec::new();
        let mut i: usize = 0;
        while i < self.instructions.len()
            invariant
                all == self.instructions@,
                i <= all.len(),
                forall|k: int| 0 <= k < i ==> (#[trigger] encoding(all[k])) is Some,
                out@ == program_bytes(all.take(i as int)),
            decreases all.len() - i,
        {
            match self.instructions[i].code_bytes() {
                Some((a, b, c)) => {
                    let ghost before = out@;
                    out.push(a);
                    out.push(b);
                    out.push(c);
                    assert(all.take(i + 1).drop_last() =~= all.take(i as int));
                    assert(out@ =~= before + seq![a, b, c]);
                },
                None => {
                    return Err(AsmError::UnimplementedOperation { instruction: self.instructions[i] });
                },
            }
            i += 1;
        }
        assert(all.take(i as int) =~= all);
        Ok(out)
    }

    /// Encodes every instruction, in order. Fails at the first instruction
    /// that has no opcode.
    pub fn encode(self) -> (r: Result<Vec<String>, AsmError>)
        ensures
            match r {
                Ok(v) => (forall|i: int|
                    0 <= i < self@.instructions.len() ==> (#[trigger] encoding(
                        self@.instructions[i],
                    )) is Some) && views(v@) == self@.instructions.map_values(
                    |x: Instruction| hex_of(x),
                ),
                Err(e) => exists|j: int|
                    0 <= j < self@.instructions.len() && encoding(self@.instructions[j]) is None
                        && (forall|k: int|
                        0 <= k < j ==> (#[trigger] encoding(self@.instructions[k])) is Some)
                        && e@ == Fault::UnimplementedOperation(self@.instructions[j]),
            },
    {
        let ghost all = self@.instructions;
        let mut out: Vec<String> = Vec::new();
        let mut i: usize = 0;
        while i < self.instructions.len()
            invariant
                all == self.instructions@,
                i <= all.len(),
                forall|k: int| 0 <= k < i ==> (#[trigger] encoding(all[k])) is Some,
                views(out@) == all.take(i as int).map_values(|x: Instruction| hex_of(x)),
            decreases all.len() - i,
        {
            match self.instructions[i].encode() {
                Ok(s) => {
                    let ghost before = out@;
                    out.push(s);
                    assert(views(out@) =~= all.take(i + 1).map_values(|x: Instruction| hex_of(x)))
                        by {
                        assert(views(out@) =~= views(before).push(s@));
                    }
                },
                Err(e) => {
                    return Err(e);
                },
            }
            i += 1;
        }
        assert(all.take(i as int) =~= all);
        Ok(out)
    }
}

} // verus!
