use vstd::prelude::*;

use crate::error::ParseError;
use crate::expr::{eval, Value};
use crate::instr::{instruction_result, Instruction, InstructionOperands, ParsedInstruction};
use crate::symbols::{pairs_map, public_value, resolve_in, scope_fn, ProgramState, SymbolTable};
use crate::syntax::{
    file_tokens_sp, file_text_agrees, parse_file_text, parse_program_text, program_text_agrees,
    program_tokens_sp, program_views, token_views, tokens_of, Token,
};

verus! {

/// A directive line of a program.
#[derive(Debug)]
pub enum ParsedDirective {
    Define { public: bool, name: String, value: Value },
    Origin(Value),
    SideSet { value: Value, opt: bool, pindirs: bool },
    WrapTarget,
    Wrap,
    LangOpt(String),
}

/// One line of a program: a directive, an instruction or a label.
#[derive(Debug)]
pub enum Line {
    Directive(ParsedDirective),
    Instruction(ParsedInstruction),
    Label { public: bool, name: String },
}

/// What the first pass learns of the layout of a program.
#[derive(Debug, Clone, Copy, PartialEq, Eq, Structural)]
pub struct Layout {
    pub side_set_size: u8,
    pub side_set_opt: bool,
    pub side_set_pindirs: bool,
    pub origin: Option<u8>,
    pub wrap_target: Option<usize>,
    pub wrap: Option<usize>,
    pub instr_index: usize,
}

/// The state of the first pass, as the specifications describe it: the
/// layout so far and the program's symbols.
pub struct FirstPass {
    pub layout: Layout,
    pub defines: Map<Seq<char>, (bool, i32)>,
}

pub open spec fn initial_layout() -> Layout {
    Layout {
        side_set_size: 0,
        side_set_opt: false,
        side_set_pindirs: false,
        origin: None,
        wrap_target: None,
        wrap: None,
        instr_index: 0,
    }
}

/// The effect of one line in the first pass.
pub open spec fn first_pass_step(
    st: FirstPass,
    line: Line,
    file: Map<Seq<char>, (bool, i32)>,
) -> Result<FirstPass, ParseError> {
    let lookup = scope_fn(st.defines, file);
    let l = st.layout;
    match line {
        Line::Instruction(_) => Ok(
            FirstPass { layout: Layout { instr_index: (l.instr_index + 1) as usize, ..l }, ..st },
        ),
        Line::Label { public, name } => Ok(
            FirstPass { defines: st.defines.insert(name@, (public, l.instr_index as i32)), ..st },
        ),
        Line::Directive(d) => match d {
            ParsedDirective::Define { public, name, value } => match eval(value, lookup) {
                Ok(v) => Ok(FirstPass { defines: st.defines.insert(name@, (public, v)), ..st }),
                Err(e) => Err(e),
            },
            ParsedDirective::Origin(value) => match eval(value, lookup) {
                Ok(v) => Ok(FirstPass { layout: Layout { origin: Some(v as u8), ..l }, ..st }),
                Err(e) => Err(e),
            },
            ParsedDirective::SideSet { value, opt, pindirs } => if l.instr_index != 0 {
                Err(ParseError::SideSetAfterInstruction)
            } else {
                match eval(value, lookup) {
                    Ok(v) => Ok(
                        FirstPass {
                            layout: Layout {
                                side_set_size: v as u8,
                                side_set_opt: opt,
                                side_set_pindirs: pindirs,
                                ..l
                            },
                            ..st
                        },
                    ),
                    Err(e) => Err(e),
                }
            },
            ParsedDirective::WrapTarget => if l.wrap_target is Some {
                Err(ParseError::DuplicateWrapTarget)
            } else {
                Ok(FirstPass { layout: Layout { wrap_target: Some(l.instr_index), ..l }, ..st })
            },
            ParsedDirective::Wrap => if l.wrap is Some {
                Err(ParseError::DuplicateWrap)
            } else if l.instr_index == 0 {
                Err(ParseError::WrapBeforeInstruction)
            } else {
                Ok(
                    FirstPass {
                        layout: Layout { wrap: Some((l.instr_index - 1) as usize), ..l },
                        ..st
                    },
                )
            },
            ParsedDirective::LangOpt(_) => Ok(st),
        },
    }
}

/// The first pass over the first `k` lines.
pub open spec fn first_pass(
    lines: Seq<Line>,
    file: Map<Seq<char>, (bool, i32)>,
    k: int,
) -> Result<FirstPass, ParseError>
    decreases k,
{
    if k <= 0 {
        Ok(FirstPass { layout: initial_layout(), defines: Map::empty() })
    } else {
        match first_pass(lines, file, k - 1) {
            Err(e) => Err(e),
            Ok(st) => first_pass_step(st, lines[k - 1], file),
        }
    }
}

/// The number of instruction lines among the first `k` lines.
pub open spec fn count_instructions(lines: Seq<Line>, k: int) -> nat
    decreases k,
{
    if k <= 0 {
        0
    } else {
        count_instructions(lines, k - 1) + if lines[k - 1] is Instruction {
            1nat
        } else {
            0nat
        }
    }
}

/// The second pass over the first `k` lines: the instructions they hold,
/// evaluated, or the first failure; at most `size` instructions fit.
pub open spec fn second_pass(
    lines: Seq<Line>,
    lookup: spec_fn(Seq<char>) -> Option<i32>,
    size: nat,
    k: int,
) -> Result<Seq<Instruction>, ParseError>
    decreases k,
{
    if k <= 0 {
        Ok(Seq::empty())
    } else {
        match second_pass(lines, lookup, size, k - 1) {
            Err(e) => Err(e),
            Ok(done) => match lines[k - 1] {
                Line::Instruction(i) => match instruction_result(i, lookup) {
                    Err(e) => Err(e),
                    Ok(ins) => if done.len() >= size {
                        Err(ParseError::ProgramTooLarge)
                    } else {
                        Ok(done.push(ins))
                    },
                },
                _ => Ok(done),
            },
        }
    }
}

/// The region that a program repeats: the instruction it wraps from and the
/// one it wraps to.
#[derive(Debug, Clone, Copy, PartialEq, Eq, Structural)]
pub struct Wrap {
    pub source: u8,
    pub target: u8,
}

/// How many side-set bits each instruction carries, and how they act.
#[derive(Debug, Clone, Copy, PartialEq, Eq, Structural)]
pub struct SideSet {
    pub opt: bool,
    pub bits: u8,
    pub pindirs: bool,
}

/// The wrap region that the two directives give: both or neither must be present.
pub open spec fn wrap_result(wrap: Option<usize>, wrap_target: Option<usize>) -> Result<
    Option<Wrap>,
    ParseError,
> {
    match (wrap, wrap_target) {
        (Some(s), Some(t)) => Ok(Some(Wrap { source: s as u8, target: t as u8 })),
        (None, None) => Ok(None),
        _ => Err(ParseError::UnpairedWrap),
    }
}

/// Pairs the wrap source and target.
pub fn wrap_region(wrap: Option<usize>, wrap_target: Option<usize>) -> (r: Result<
    Option<Wrap>,
    ParseError,
>)
    ensures
        r == wrap_result(wrap, wrap_target),
{
    match (wrap, wrap_target) {
        (Some(s), Some(t)) => Ok(Some(Wrap { source: s as u8, target: t as u8 })),
        (None, None) => Ok(None),
        _ => Err(ParseError::UnpairedWrap),
    }
}

/// An assembled program: its instructions and what is needed to load it.
#[derive(Debug)]
pub struct Program {
    pub instructions: Vec<Instruction>,
    pub side_set: SideSet,
    pub origin: Option<u8>,
    /// `None` where the program sets no wrap region of its own.
    pub wrap: Option<Wrap>,
    pub public_defines: Vec<(String, i32)>,
}

#[verifier::opaque]
/// The program assembled from `lines` in a file with symbols `file`: its
/// instructions, layout and exports, or the first failure.
pub open spec fn program_matches(
    r: Result<Program, ParseError>,
    lines: Seq<Line>,
    file: Map<Seq<char>, (bool, i32)>,
    size: nat,
) -> bool {
    match first_pass(lines, file, lines.len() as int) {
        Err(e) => r == Err::<Program, ParseError>(e),
        Ok(fp) => match second_pass(lines, scope_fn(fp.defines, file), size, lines.len() as int) {
            Err(e) => r == Err::<Program, ParseError>(e),
            Ok(instrs) => match wrap_result(fp.layout.wrap, fp.layout.wrap_target) {
                Err(e) => r == Err::<Program, ParseError>(e),
                Ok(w) => r is Ok && {
                    let p = r->Ok_0;
                    &&& p.instructions@ == instrs
                    &&& p.wrap == w
                    &&& p.origin == fp.layout.origin
                    &&& p.side_set == (SideSet {
                        opt: fp.layout.side_set_opt,
                        bits: fp.layout.side_set_size,
                        pindirs: fp.layout.side_set_pindirs,
                    })
                    &&& forall|n: Seq<char>|
                        #![trigger public_value(fp.defines, file, n)]
                        (pairs_map(p.public_defines@).contains_key(n) <==> public_value(
                            fp.defines,
                            file,
                            n,
                        ) is Some) && (pairs_map(p.public_defines@).contains_key(n)
                            ==> public_value(fp.defines, file, n) == Some(
                            pairs_map(p.public_defines@)[n],
                        ))
                },
            },
        },
    }
}

} // verus!
verus! {

/// Once a prefix fails, every longer prefix fails the same way.
proof fn lemma_first_pass_error_persists(
    lines: Seq<Line>,
    file: Map<Seq<char>, (bool, i32)>,
    j: int,
    k: int,
)
    requires
        0 <= j <= k,
        first_pass(lines, file, j) is Err,
    ensures
        first_pass(lines, file, k) == first_pass(lines, file, j),
    decreases k - j,
{
    if j < k {
        lemma_first_pass_error_persists(lines, file, j, k - 1);
    }
}

proof fn lemma_second_pass_error_persists(
    lines: Seq<Line>,
    lookup: spec_fn(Seq<char>) -> Option<i32>,
    size: nat,
    j: int,
    k: int,
)
    requires
        0 <= j <= k,
        second_pass(lines, lookup, size, j) is Err,
    ensures
        second_pass(lines, lookup, size, k) == second_pass(lines, lookup, size, j),
    decreases k - j,
{
    if j < k {
        lemma_second_pass_error_persists(lines, lookup, size, j, k - 1);
    }
}

/// The first pass: finds labels, evaluates defines and reads the layout directives.
fn run_first_pass(lines: &Vec<Line>, state: &mut ProgramState) -> (r: Result<Layout, ParseError>)
    requires
        old(state).defines@ == Map::<Seq<char>, (bool, i32)>::empty(),
    ensures
        final(state).file == old(state).file,
        match first_pass(lines@, old(state).file@, lines@.len() as int) {
            Ok(fp) => r == Ok::<Layout, ParseError>(fp.layout) && final(state).defines@ == fp.defines,
            Err(e) => r == Err::<Layout, ParseError>(e),
        },
{
    let ghost file = state.file@;
    let mut layout = Layout {
        side_set_size: 0,
        side_set_opt: false,
        side_set_pindirs: false,
        origin: None,
        wrap_target: None,
        wrap: None,
        instr_index: 0,
    };
    let mut i: usize = 0;
    while i < lines.len()
        invariant
            i <= lines@.len(),
            state.file == old(state).file,
            file == state.file@,
            layout.instr_index <= i,
            first_pass(lines@, file, i as int) == Ok::<FirstPass, ParseError>(
                FirstPass { layout, defines: state.defines@ },
            ),
        decreases lines@.len() - i,
    {
        let ghost before = FirstPass { layout, defines: state.defines@ };
        let step: Result<(), ParseError> = match &lines[i] {
            Line::Instruction(_) => {
                layout.instr_index = layout.instr_index + 1;
                Ok(())
            },
            Line::Label { public, name } => {
                state.defines.define(name.clone(), *public, layout.instr_index as i32);
                Ok(())
            },
            Line::Directive(d) => match d {
                ParsedDirective::Define { public, name, value } => match value.reify(state) {
                    Ok(v) => {
                        state.defines.define(name.clone(), *public, v);
                        Ok(())
                    },
                    Err(e) => Err(e),
                },
                ParsedDirective::Origin(value) => match value.reify(state) {
                    Ok(v) => {
                        layout.origin = Some(v as u8);
                        Ok(())
                    },
                    Err(e) => Err(e),
                },
                ParsedDirective::SideSet { value, opt, pindirs } => if layout.instr_index != 0 {
                    Err(ParseError::SideSetAfterInstruction)
                } else {
                    match value.reify(state) {
                        Ok(v) => {
                            layout.side_set_size = v as u8;
                            layout.side_set_opt = *opt;
                            layout.side_set_pindirs = *pindirs;
                            Ok(())
                        },
                        Err(e) => Err(e),
                    }
                },
                ParsedDirective::WrapTarget => if layout.wrap_target.is_some() {
                    Err(ParseError::DuplicateWrapTarget)
                } else {
                    layout.wrap_target = Some(layout.instr_index);
                    Ok(())
                },
                ParsedDirective::Wrap => if layout.wrap.is_some() {
                    Err(ParseError::DuplicateWrap)
                } else if layout.instr_index == 0 {
                    Err(ParseError::WrapBeforeInstruction)
                } else {
                    layout.wrap = Some(layout.instr_index - 1);
                    Ok(())
                },
                ParsedDirective::LangOpt(_) => Ok(()),
            },
        };
        proof {
            assert(first_pass(lines@, file, i + 1) == first_pass_step(before, lines@[i as int], file));
        }
        match step {
            Err(e) => {
                proof {
                    lemma_first_pass_error_persists(lines@, file, i + 1, lines@.len() as int);
                }
                return Err(e);
            },
            Ok(()) => {},
        }
        i = i + 1;
    }
    Ok(layout)
}

} // verus!
verus! {

/// The second pass: evaluates every instruction against the finished symbols.
fn run_second_pass(lines: &Vec<Line>, state: &ProgramState, size: usize) -> (r: Result<
    Vec<Instruction>,
    ParseError,
>)
    ensures
        match second_pass(lines@, scope_fn(state.defines@, state.file@), size as nat, lines@.len() as int) {
            Ok(s) => r is Ok && r->Ok_0@ == s,
            Err(e) => r == Err::<Vec<Instruction>, ParseError>(e),
        },
{
    let ghost lookup = scope_fn(state.defines@, state.file@);
    let mut out: Vec<Instruction> = Vec::new();
    let mut i: usize = 0;
    while i < lines.len()
        invariant
            i <= lines@.len(),
            lookup == scope_fn(state.defines@, state.file@),
            second_pass(lines@, lookup, size as nat, i as int) == Ok::<Seq<Instruction>, ParseError>(out@),
        decreases lines@.len() - i,
    {
        if let Line::Instruction(ins) = &lines[i] {
            match ins.reify(state) {
                Err(e) => {
                    proof {
                        lemma_second_pass_error_persists(lines@, lookup, size as nat, i + 1, lines@.len() as int);
                    }
                    return Err(e);
                },
                Ok(x) => {
                    if out.len() >= size {
                        proof {
                            lemma_second_pass_error_persists(lines@, lookup, size as nat, i + 1, lines@.len() as int);
                        }
                        return Err(ParseError::ProgramTooLarge);
                    }
                    out.push(x);
                },
            }
        }
        i = i + 1;
    }
    Ok(out)
}

/// The assembler; `PROGRAM_SIZE` bounds the number of instructions of one program.
/// Programs of a file come out in the order they are written, so where two
/// share a name, a lookup that takes the last one lets the later win.
pub struct Parser<const PROGRAM_SIZE: usize>;

impl<const PROGRAM_SIZE: usize> Parser<PROGRAM_SIZE> {
    /// Assembles one program in two passes against the symbols of its file.
    pub fn process(lines: &Vec<Line>, file: &SymbolTable) -> (r: Result<Program, ParseError>)
        ensures
            program_matches(r, lines@, file@, PROGRAM_SIZE as nat),
    {
        reveal(program_matches);
        let mut state = ProgramState::new(file);
        let layout = run_first_pass(lines, &mut state)?;
        let instructions = run_second_pass(lines, &state, PROGRAM_SIZE)?;
        let wrap = wrap_region(layout.wrap, layout.wrap_target)?;
        let public_defines = state.public_defines();
        Ok(
            Program {
                instructions,
                side_set: SideSet {
                    opt: layout.side_set_opt,
                    bits: layout.side_set_size,
                    pindirs: layout.side_set_pindirs,
                },
                origin: layout.origin,
                wrap,
                public_defines,
            },
        )
    }
}

} // verus!
verus! {

#[verifier::opaque]
/// What went wrong in a program, if anything.
pub open spec fn program_failure(
    lines: Seq<Line>,
    file: Map<Seq<char>, (bool, i32)>,
    size: nat,
) -> Option<ParseError> {
    match first_pass(lines, file, lines.len() as int) {
        Err(e) => Some(e),
        Ok(fp) => match second_pass(lines, scope_fn(fp.defines, file), size, lines.len() as int) {
            Err(e) => Some(e),
            Ok(_) => match wrap_result(fp.layout.wrap, fp.layout.wrap_target) {
                Err(e) => Some(e),
                Ok(_) => None,
            },
        },
    }
}

/// The failure of the first of the first `k` programs that fails.
pub open spec fn first_failure(
    programs: Seq<(String, Vec<Line>)>,
    file: Map<Seq<char>, (bool, i32)>,
    size: nat,
    k: int,
) -> Option<ParseError>
    decreases k,
{
    if k <= 0 {
        None
    } else {
        match first_failure(programs, file, size, k - 1) {
            Some(e) => Some(e),
            None => program_failure(programs[k - 1].1@, file, size),
        }
    }
}

/// The file's symbols after the first `k` top-level directives; each define
/// sees only those before it.
pub open spec fn file_symbols(directives: Seq<ParsedDirective>, k: int) -> Result<
    Map<Seq<char>, (bool, i32)>,
    ParseError,
>
    decreases k,
{
    if k <= 0 {
        Ok(Map::empty())
    } else {
        match file_symbols(directives, k - 1) {
            Err(e) => Err(e),
            Ok(m) => match directives[k - 1] {
                ParsedDirective::Define { public, name, value } => match eval(
                    value,
                    scope_fn(Map::empty(), m),
                ) {
                    Ok(v) => Ok(m.insert(name@, (public, v))),
                    Err(e) => Err(e),
                },
                _ => Ok(m),
            },
        }
    }
}

proof fn lemma_file_symbols_error_persists(directives: Seq<ParsedDirective>, j: int, k: int)
    requires
        0 <= j <= k,
        file_symbols(directives, j) is Err,
    ensures
        file_symbols(directives, k) == file_symbols(directives, j),
    decreases k - j,
{
    if j < k {
        lemma_file_symbols_error_persists(directives, j, k - 1);
    }
}

proof fn lemma_first_failure_persists(
    programs: Seq<(String, Vec<Line>)>,
    file: Map<Seq<char>, (bool, i32)>,
    size: nat,
    j: int,
    k: int,
)
    requires
        0 <= j <= k,
        first_failure(programs, file, size, j) is Some,
    ensures
        first_failure(programs, file, size, k) == first_failure(programs, file, size, j),
    decreases k - j,
{
    if j < k {
        lemma_first_failure_persists(programs, file, size, j, k - 1);
    }
}

/// A program fails exactly when its failure says so.
proof fn lemma_matches_failure(
    r: Result<Program, ParseError>,
    lines: Seq<Line>,
    file: Map<Seq<char>, (bool, i32)>,
    size: nat,
)
    requires
        program_matches(r, lines, file, size),
    ensures
        r is Ok <==> program_failure(lines, file, size) is None,
        r is Err ==> program_failure(lines, file, size) == Some(r->Err_0),
{
    reveal(program_matches);
    reveal(program_failure);
}

/// The programs of a file assembled against its shared defines: every one
/// of them, or the first failure.
pub open spec fn file_matches(
    r: Result<Vec<(String, Program)>, ParseError>,
    directives: Seq<ParsedDirective>,
    programs: Seq<(String, Vec<Line>)>,
    size: nat,
) -> bool {
    match file_symbols(directives, directives.len() as int) {
        Err(e) => r == Err::<Vec<(String, Program)>, ParseError>(e),
        Ok(m) => match first_failure(programs, m, size, programs.len() as int) {
            Some(e) => r == Err::<Vec<(String, Program)>, ParseError>(e),
            None => r is Ok && r->Ok_0@.len() == programs.len() && forall|i: int|
                0 <= i < programs.len() ==> (#[trigger] r->Ok_0@[i]).0@ == programs[i].0@
                    && program_matches(Ok(r->Ok_0@[i].1), programs[i].1@, m, size),
        },
    }
}

/// Evaluates the top-level defines of a file into its symbol table.
pub fn file_defines(directives: &Vec<ParsedDirective>) -> (r: Result<SymbolTable, ParseError>)
    ensures
        match file_symbols(directives@, directives@.len() as int) {
            Ok(m) => r is Ok && r->Ok_0@ == m,
            Err(e) => r == Err::<SymbolTable, ParseError>(e),
        },
{
    let mut file = SymbolTable::new();
    let mut i: usize = 0;
    while i < directives.len()
        invariant
            i <= directives@.len(),
            file_symbols(directives@, i as int) == Ok::<Map<Seq<char>, (bool, i32)>, ParseError>(file@),
        decreases directives@.len() - i,
    {
        if let ParsedDirective::Define { public, name, value } = &directives[i] {
            let st = ProgramState::new(&file);
            match value.reify(&st) {
                Ok(v) => {
                    file.define(name.clone(), *public, v);
                },
                Err(e) => {
                    proof {
                        lemma_file_symbols_error_persists(directives@, i + 1, directives@.len() as int);
                    }
                    return Err(e);
                },
            }
        }
        i = i + 1;
    }
    Ok(file)
}

impl<const PROGRAM_SIZE: usize> Parser<PROGRAM_SIZE> {
    /// Assembles every program of a file against the file's shared defines;
    /// the first failure ends the whole file.
    pub fn assemble_file(
        directives: &Vec<ParsedDirective>,
        programs: &Vec<(String, Vec<Line>)>,
    ) -> (r: Result<Vec<(String, Program)>, ParseError>)
        ensures
            file_matches(r, directives@, programs@, PROGRAM_SIZE as nat),
    {
        let file = match file_defines(directives) {
            Ok(f) => f,
            Err(e) => return Err(e),
        };
        let ghost m = file@;
        let mut out: Vec<(String, Program)> = Vec::new();
        let mut i: usize = 0;
        while i < programs.len()
            invariant
                i <= programs@.len(),
                m == file@,
                file_symbols(directives@, directives@.len() as int) == Ok::<Map<Seq<char>, (bool, i32)>, ParseError>(m),
                first_failure(programs@, m, PROGRAM_SIZE as nat, i as int) is None,
                out@.len() == i,
                forall|j: int|
                    0 <= j < i ==> (#[trigger] out@[j]).0@ == programs@[j].0@ && program_matches(
                        Ok(out@[j].1),
                        programs@[j].1@,
                        m,
                        PROGRAM_SIZE as nat,
                    ),
            decreases programs@.len() - i,
        {
            let (name, lines) = &programs[i];
            let res = Self::process(lines, &file);
            proof {
                lemma_matches_failure(res, lines@, m, PROGRAM_SIZE as nat);
            }
            match res {
                Ok(p) => {
                    out.push((name.clone(), p));
                    assert(first_failure(programs@, m, PROGRAM_SIZE as nat, i + 1) is None);
                },
                Err(e) => {
                    proof {
                        assert(first_failure(programs@, m, PROGRAM_SIZE as nat, i + 1) == Some(e));
                        lemma_first_failure_persists(programs@, m, PROGRAM_SIZE as nat, i + 1, programs@.len() as int);
                    }
                    return Err(e);
                },
            }
            i = i + 1;
        }
        Ok(out)
    }
}

} // verus!

verus! {

impl<const PROGRAM_SIZE: usize> Parser<PROGRAM_SIZE> {
    /// Reads and assembles a file of programs, each introduced by `.program <name>`;
    /// defines before the first program are shared by all of them. Text that
    /// cannot be split into tokens fails with a syntax error; otherwise the
    /// result is what `assemble_file` gives for the directives and programs
    /// that the grammar reads from the tokens, or the grammar's own failure.
    pub fn parse_file(source: &str) -> (r: Result<Vec<(String, Program)>, ParseError>)
        ensures
            tokens_of(source@) is None ==> r is Err && r->Err_0 is Syntax,
            tokens_of(source@) is Some ==> exists|toks: Seq<Token>|
                token_views(toks) == tokens_of(source@)->0 && #[trigger] file_from_tokens(
                    toks,
                    r,
                    PROGRAM_SIZE as nat,
                ),
    {
        let t = parse_file_text(source);
        match t {
            Err(e) => {
                proof {
                    if tokens_of(source@) is Some {
                        let toks = choose|toks: Seq<Token>|
                            token_views(toks) == tokens_of(source@)->0 && #[trigger] file_text_agrees(toks, t);
                        assert(file_from_tokens(toks, Err(e), PROGRAM_SIZE as nat));
                    }
                }
                Err(e)
            },
            Ok((directives, programs)) => {
                let ghost tv = t;
                let r = Self::assemble_file(&directives, &programs);
                proof {
                    let toks = choose|toks: Seq<Token>|
                        token_views(toks) == tokens_of(source@)->0 && #[trigger] file_text_agrees(toks, tv);
                    assert(program_views(programs@) == program_views(programs@));
                    assert(file_from_tokens(toks, r, PROGRAM_SIZE as nat));
                }
                r
            },
        }
    }

    /// Reads and assembles a single program, written without `.program`.
    /// Text that cannot be split into tokens fails with a syntax error;
    /// otherwise the result is what `process` gives, in an empty file scope,
    /// for the lines that the grammar reads from the tokens, or the grammar's
    /// own failure.
    pub fn parse_program(source: &str) -> (r: Result<Program, ParseError>)
        ensures
            tokens_of(source@) is None ==> r is Err && r->Err_0 is Syntax,
            tokens_of(source@) is Some ==> exists|toks: Seq<Token>|
                token_views(toks) == tokens_of(source@)->0 && #[trigger] program_from_tokens(
                    toks,
                    r,
                    PROGRAM_SIZE as nat,
                ),
    {
        let t = parse_program_text(source);
        match t {
            Err(e) => {
                proof {
                    if tokens_of(source@) is Some {
                        let toks = choose|toks: Seq<Token>|
                            token_views(toks) == tokens_of(source@)->0 && #[trigger] program_text_agrees(toks, t);
                        assert(program_from_tokens(toks, Err(e), PROGRAM_SIZE as nat));
                    }
                }
                Err(e)
            },
            Ok(lines) => {
                let ghost tv = t;
                let file = SymbolTable::new();
                let r = Self::process(&lines, &file);
                proof {
                    let toks = choose|toks: Seq<Token>|
                        token_views(toks) == tokens_of(source@)->0 && #[trigger] program_text_agrees(toks, tv);
                    assert(file@ =~= Map::<Seq<char>, (bool, i32)>::empty());
                    assert(program_from_tokens(toks, r, PROGRAM_SIZE as nat));
                }
                r
            },
        }
    }
}

/// What assembling the program that the grammar reads from `toks` gives.
pub open spec fn program_from_tokens(toks: Seq<Token>, r: Result<Program, ParseError>, size: nat) -> bool {
    match program_tokens_sp(toks) {
        Err(e) => r == Err::<Program, ParseError>(e),
        Ok(lines) => program_matches(r, lines, Map::empty(), size),
    }
}

/// What assembling the file that the grammar reads from `toks` gives.
pub open spec fn file_from_tokens(toks: Seq<Token>, r: Result<Vec<(String, Program)>, ParseError>, size: nat) -> bool {
    match file_tokens_sp(toks) {
        Err(e) => r == Err::<Vec<(String, Program)>, ParseError>(e),
        Ok((ds, ps)) => exists|programs: Seq<(String, Vec<Line>)>|
            program_views(programs) == ps && #[trigger] file_matches(r, ds, programs, size),
    }
}

} // verus!
verus! {

/// The line introduces the name `n`, as a label or a define.
pub open spec fn defines_name(line: Line, n: Seq<char>) -> bool {
    match line {
        Line::Label { name, .. } => name@ == n,
        Line::Directive(ParsedDirective::Define { name, .. }) => name@ == n,
        _ => false,
    }
}

/// A first pass that succeeds on all lines succeeds on every prefix.
proof fn lemma_first_pass_prefix_ok(lines: Seq<Line>, file: Map<Seq<char>, (bool, i32)>, k: int)
    requires
        0 <= k <= lines.len(),
        first_pass(lines, file, lines.len() as int) is Ok,
    ensures
        first_pass(lines, file, k) is Ok,
{
    if first_pass(lines, file, k) is Err {
        lemma_first_pass_error_persists(lines, file, k, lines.len() as int);
    }
}

/// While the first pass succeeds, its counter is the number of instructions seen.
proof fn lemma_first_pass_counts(lines: Seq<Line>, file: Map<Seq<char>, (bool, i32)>, k: int)
    requires
        0 <= k <= lines.len() <= usize::MAX,
        first_pass(lines, file, k) is Ok,
    ensures
        first_pass(lines, file, k)->Ok_0.layout.instr_index == count_instructions(lines, k),
        count_instructions(lines, k) <= k,
    decreases k,
{
    if k > 0 {
        lemma_first_pass_counts(lines, file, k - 1);
    }
}

/// After a name's last definition, later lines leave its entry alone.
proof fn lemma_first_pass_keeps(
    lines: Seq<Line>,
    file: Map<Seq<char>, (bool, i32)>,
    j: int,
    k: int,
    n: Seq<char>,
)
    requires
        0 <= j <= k <= lines.len(),
        first_pass(lines, file, k) is Ok,
        first_pass(lines, file, j) is Ok,
        first_pass(lines, file, j)->Ok_0.defines.contains_key(n),
        forall|i: int| j <= i < k ==> !defines_name(#[trigger] lines[i], n),
    ensures
        first_pass(lines, file, k)->Ok_0.defines.contains_key(n),
        first_pass(lines, file, k)->Ok_0.defines[n] == first_pass(lines, file, j)->Ok_0.defines[n],
    decreases k - j,
{
    if j < k {
        if first_pass(lines, file, k - 1) is Err {
            lemma_first_pass_error_persists(lines, file, k - 1, k);
        }
        lemma_first_pass_keeps(lines, file, j, k - 1, n);
        assert(!defines_name(lines[k - 1], n));
    }
}

/// A label stands for the number of instructions before it: when the first
/// pass succeeds and no later line defines the name again, the label's name
/// resolves to that count.
pub proof fn lemma_label_counts_instructions(
    lines: Seq<Line>,
    file: Map<Seq<char>, (bool, i32)>,
    j: int,
)
    requires
        0 <= j < lines.len() <= usize::MAX,
        lines[j] is Label,
        first_pass(lines, file, lines.len() as int) is Ok,
        forall|i: int| j < i < lines.len() ==> !defines_name(#[trigger] lines[i], lines[j]->Label_name@),
    ensures
        ({
            let fp = first_pass(lines, file, lines.len() as int)->Ok_0;
            let n = lines[j]->Label_name@;
            &&& fp.defines.contains_key(n)
            &&& fp.defines[n] == (lines[j]->Label_public, count_instructions(lines, j) as i32)
            &&& resolve_in(fp.defines, file, n) == Some(count_instructions(lines, j) as i32)
        }),
{
    lemma_first_pass_prefix_ok(lines, file, j);
    lemma_first_pass_prefix_ok(lines, file, j + 1);
    lemma_first_pass_counts(lines, file, j);
    lemma_first_pass_keeps(lines, file, j + 1, lines.len() as int, lines[j]->Label_name@);
}

/// `.side_set` after an instruction is refused: when every earlier line
/// passed, the first pass fails with the ordering error.
pub proof fn lemma_side_set_after_instruction_fails(
    lines: Seq<Line>,
    file: Map<Seq<char>, (bool, i32)>,
    j: int,
)
    requires
        0 <= j < lines.len() <= usize::MAX,
        lines[j] is Directive && lines[j]->Directive_0 is SideSet,
        count_instructions(lines, j) > 0,
        first_pass(lines, file, j) is Ok,
    ensures
        first_pass(lines, file, lines.len() as int) == Err::<FirstPass, ParseError>(
            ParseError::SideSetAfterInstruction,
        ),
{
    lemma_first_pass_counts(lines, file, j);
    assert(first_pass(lines, file, j + 1) == Err::<FirstPass, ParseError>(
        ParseError::SideSetAfterInstruction,
    ));
    lemma_first_pass_error_persists(lines, file, j + 1, lines.len() as int);
}

/// `.wrap` and `.wrap_target` go together: one without the other fails, and
/// neither gives no wrap region.
pub proof fn lemma_wrap_pairing(s: usize, t: usize)
    ensures
        wrap_result(Some(s), None) == Err::<Option<Wrap>, ParseError>(ParseError::UnpairedWrap),
        wrap_result(None, Some(t)) == Err::<Option<Wrap>, ParseError>(ParseError::UnpairedWrap),
        wrap_result(None, None) == Ok::<Option<Wrap>, ParseError>(None),
{
}

} // verus!
verus! {

/// The second pass puts the instruction of line `i` at the index that counts
/// the instructions before it.
proof fn lemma_second_pass_places(
    lines: Seq<Line>,
    lookup: spec_fn(Seq<char>) -> Option<i32>,
    size: nat,
    k: int,
    i: int,
)
    requires
        0 <= i < k <= lines.len(),
        lines[i] is Instruction,
        second_pass(lines, lookup, size, k) is Ok,
    ensures
        second_pass(lines, lookup, size, k)->Ok_0.len() == count_instructions(lines, k),
        count_instructions(lines, i) < count_instructions(lines, k),
        instruction_result(lines[i]->Instruction_0, lookup) == Ok::<Instruction, ParseError>(
            second_pass(lines, lookup, size, k)->Ok_0[count_instructions(lines, i) as int],
        ),
    decreases k,
{
    lemma_second_pass_len(lines, lookup, size, k);
    if i < k - 1 {
        if second_pass(lines, lookup, size, k - 1) is Err {
            lemma_second_pass_error_persists(lines, lookup, size, k - 1, k);
        }
        lemma_second_pass_places(lines, lookup, size, k - 1, i);
    } else {
        if second_pass(lines, lookup, size, k - 1) is Err {
            lemma_second_pass_error_persists(lines, lookup, size, k - 1, k);
        }
        lemma_second_pass_len(lines, lookup, size, k - 1);
    }
}

proof fn lemma_second_pass_len(
    lines: Seq<Line>,
    lookup: spec_fn(Seq<char>) -> Option<i32>,
    size: nat,
    k: int,
)
    requires
        0 <= k <= lines.len(),
        second_pass(lines, lookup, size, k) is Ok,
    ensures
        second_pass(lines, lookup, size, k)->Ok_0.len() == count_instructions(lines, k),
    decreases k,
{
    if k > 0 {
        if second_pass(lines, lookup, size, k - 1) is Err {
            lemma_second_pass_error_persists(lines, lookup, size, k - 1, k);
        }
        lemma_second_pass_len(lines, lookup, size, k - 1);
    }
}

/// A label may be used before it is declared: in a program that assembles, a
/// `jmp` to a label's name, wherever it stands, jumps to the number of
/// instructions before the label (the name defined nowhere after the label).
pub proof fn lemma_forward_reference(
    r: Result<Program, ParseError>,
    lines: Seq<Line>,
    size: nat,
    i: int,
    j: int,
)
    requires
        program_matches(r, lines, Map::empty(), size),
        r is Ok,
        lines.len() <= usize::MAX,
        0 <= i < lines.len(),
        0 <= j < lines.len(),
        lines[j] is Label,
        forall|k: int| j < k < lines.len() ==> !defines_name(#[trigger] lines[k], lines[j]->Label_name@),
        lines[i] is Instruction,
        lines[i]->Instruction_0.operands is JMP,
        lines[i]->Instruction_0.operands->JMP_address is Symbol,
        lines[i]->Instruction_0.operands->JMP_address->Symbol_0@ == lines[j]->Label_name@,
    ensures
        count_instructions(lines, i) < r->Ok_0.instructions@.len(),
        r->Ok_0.instructions@[count_instructions(lines, i) as int].operands == (InstructionOperands::JMP {
            condition: lines[i]->Instruction_0.operands->JMP_condition,
            address: count_instructions(lines, j) as i32 as u8,
        }),
{
    reveal(program_matches);
    let file = Map::<Seq<char>, (bool, i32)>::empty();
    let fp = first_pass(lines, file, lines.len() as int)->Ok_0;
    lemma_label_counts_instructions(lines, file, j);
    let lookup = scope_fn(fp.defines, file);
    lemma_second_pass_places(lines, lookup, size, lines.len() as int, i);
}

} // verus!
verus! {

pub open spec fn is_wrap_line(l: Line) -> bool {
    l is Directive && l->Directive_0 is Wrap
}

pub open spec fn is_wrap_target_line(l: Line) -> bool {
    l is Directive && l->Directive_0 is WrapTarget
}

proof fn lemma_first_pass_wrap_flags(lines: Seq<Line>, file: Map<Seq<char>, (bool, i32)>, k: int)
    requires
        0 <= k <= lines.len(),
        first_pass(lines, file, k) is Ok,
    ensures
        first_pass(lines, file, k)->Ok_0.layout.wrap is Some <==> exists|j: int|
            0 <= j < k && is_wrap_line(#[trigger] lines[j]),
        first_pass(lines, file, k)->Ok_0.layout.wrap_target is Some <==> exists|j: int|
            0 <= j < k && is_wrap_target_line(#[trigger] lines[j]),
    decreases k,
{
    if k > 0 {
        lemma_first_pass_wrap_flags(lines, file, k - 1);
        if exists|j: int| 0 <= j < k - 1 && is_wrap_line(#[trigger] lines[j]) {
            let j = choose|j: int| 0 <= j < k - 1 && is_wrap_line(#[trigger] lines[j]);
            assert(0 <= j < k && is_wrap_line(lines[j]));
        }
        if exists|j: int| 0 <= j < k - 1 && is_wrap_target_line(#[trigger] lines[j]) {
            let j = choose|j: int| 0 <= j < k - 1 && is_wrap_target_line(#[trigger] lines[j]);
            assert(0 <= j < k && is_wrap_target_line(lines[j]));
        }
        if exists|j: int| 0 <= j < k && is_wrap_line(#[trigger] lines[j]) {
            let j = choose|j: int| 0 <= j < k && is_wrap_line(#[trigger] lines[j]);
            if j < k - 1 {
                assert(0 <= j < k - 1 && is_wrap_line(lines[j]));
            }
        }
        if exists|j: int| 0 <= j < k && is_wrap_target_line(#[trigger] lines[j]) {
            let j = choose|j: int| 0 <= j < k && is_wrap_target_line(#[trigger] lines[j]);
            if j < k - 1 {
                assert(0 <= j < k - 1 && is_wrap_target_line(lines[j]));
            }
        }
    }
}

/// `.wrap` and `.wrap_target` go together in a program: where the first pass
/// succeeds and exactly one of them is written, assembling fails (with the
/// pairing error unless an instruction failed first); where neither is
/// written, a program that assembles has no wrap region.
pub proof fn lemma_program_wrap_pairing(
    r: Result<Program, ParseError>,
    lines: Seq<Line>,
    file: Map<Seq<char>, (bool, i32)>,
    size: nat,
)
    requires
        program_matches(r, lines, file, size),
        first_pass(lines, file, lines.len() as int) is Ok,
    ensures
        (exists|j: int| 0 <= j < lines.len() && is_wrap_line(#[trigger] lines[j])) != (exists|j: int|
            0 <= j < lines.len() && is_wrap_target_line(#[trigger] lines[j])) ==> r is Err,
        (exists|j: int| 0 <= j < lines.len() && is_wrap_line(#[trigger] lines[j])) != (exists|j: int|
            0 <= j < lines.len() && is_wrap_target_line(#[trigger] lines[j])) && second_pass(
            lines,
            scope_fn(first_pass(lines, file, lines.len() as int)->Ok_0.defines, file),
            size,
            lines.len() as int,
        ) is Ok ==> r == Err::<Program, ParseError>(ParseError::UnpairedWrap),
        !(exists|j: int| 0 <= j < lines.len() && is_wrap_line(#[trigger] lines[j])) && !(exists|j: int|
            0 <= j < lines.len() && is_wrap_target_line(#[trigger] lines[j])) && r is Ok
            ==> r->Ok_0.wrap is None,
{
    reveal(program_matches);
    lemma_first_pass_wrap_flags(lines, file, lines.len() as int);
}

} // verus!
