//! Code generation: the offset pre-pass, the symbol tables, and the forward
//! pass that expands abstract instructions into concrete machine instructions.

use vstd::prelude::*;
use vstd::string::StringExecFns;
use crate::ast::{Address, AssASTTypes, AstView, Label, views_of};
use crate::wire::dec_digits;

verus! {

/// The closed set of machine-level operations. Every concrete instruction
/// occupies exactly four words of machine memory: an opcode word and three
/// operand fields `a`, `b`, `c`; fields a variant does not carry are zero.
#[derive(Debug, Clone, Copy, PartialEq, Eq, Structural)]
pub enum RawInstructions {
    ADD { a: u64, b: u64 },
    WRITE { a: u64 },
    COPY { a: u64, b: u64 },
    EXIT { a: u64 },
    SUB { a: u64, b: u64 },
    MUL { a: u64, b: u64 },
    JMP { a: u64 },
    Equal { a: u64, b: u64, c: u64 },
    NotEqual { a: u64, b: u64, c: u64 },
    DIV { a: u64, b: u64 },
    YEET { a: u64, b: u64, c: u64 },
    JHT { a: u64, b: u64, c: u64 },
}

/// The kinds of symbol resolution failure: a variable operand whose name was
/// never established, or a jump/compare target never defined in the source.
#[derive(Debug, Clone)]
pub enum CodeGenerationErrorType {
    VariableDoesntExist { name: String },
    LabelDoesntExist { name: String },
}

/// One generation error, attached to the index of the abstract instruction
/// that produced it.
#[derive(Debug)]
pub struct CodeGenerationError {
    pub type_of_error: CodeGenerationErrorType,
    pub instruction_num: usize,
}

/// The mathematical shadow of `CodeGenerationErrorType`.
pub enum CodeGenerationErrorTypeView {
    VariableDoesntExist { name: Seq<char> },
    LabelDoesntExist { name: Seq<char> },
}

/// The mathematical shadow of `CodeGenerationError`.
pub struct CodeGenerationErrorView {
    pub type_of_error: CodeGenerationErrorTypeView,
    pub instruction_num: int,
}

impl View for CodeGenerationErrorType {
    type V = CodeGenerationErrorTypeView;

    open spec fn view(&self) -> CodeGenerationErrorTypeView {
        match self {
            CodeGenerationErrorType::VariableDoesntExist { name } => {
                CodeGenerationErrorTypeView::VariableDoesntExist { name: name@ }
            },
            CodeGenerationErrorType::LabelDoesntExist { name } => {
                CodeGenerationErrorTypeView::LabelDoesntExist { name: name@ }
            },
        }
    }
}

impl View for CodeGenerationError {
    type V = CodeGenerationErrorView;

    open spec fn view(&self) -> CodeGenerationErrorView {
        CodeGenerationErrorView {
            type_of_error: self.type_of_error@,
            instruction_num: self.instruction_num as int,
        }
    }
}

/// The views of an error list, index by index.
pub open spec fn errs_views(s: Seq<CodeGenerationError>) -> Seq<CodeGenerationErrorView> {
    Seq::new(s.len(), |i: int| s[i]@)
}

/// The display form of one generation error.
pub open spec fn error_message(e: CodeGenerationErrorView) -> Seq<char>
    recommends
        e.instruction_num >= 0,
{
    "error at instruction "@ + dec_digits(e.instruction_num) + ": "@ + match e.type_of_error {
        CodeGenerationErrorTypeView::VariableDoesntExist { name } => {
            "variable "@ + name + " does not exist"@
        },
        CodeGenerationErrorTypeView::LabelDoesntExist { name } => {
            "label "@ + name + " does not exist"@
        },
    }
}

impl CodeGenerationError {
    /// Renders the error as its human-readable report line.
    pub fn message(&self) -> (r: String)
        ensures
            r@ == error_message(self@),
    {
        let mut out = String::from_str("error at instruction ");
        let digits = crate::wire::u64_to_dec_string(self.instruction_num as u64);
        out.append(digits.as_str());
        out.append(": ");
        match &self.type_of_error {
            CodeGenerationErrorType::VariableDoesntExist { name } => {
                out.append("variable ");
                out.append(name.as_str());
                out.append(" does not exist");
            },
            CodeGenerationErrorType::LabelDoesntExist { name } => {
                out.append("label ");
                out.append(name.as_str());
                out.append(" does not exist");
            },
        }
        proof {
            assert(out@ =~= error_message(self@));
        }
        out
    }
}

// ---------------------------------------------------------------------------
// The model of generation
// ---------------------------------------------------------------------------

/// The largest abstract instruction list the generator accepts; with at most
/// four concrete instructions per abstract one, every address and counter the
/// pass computes then fits a machine word.
pub const MAX_PROGRAM_LEN: u64 = 0x0400_0000_0000_0000;

/// How many concrete instructions one abstract instruction expands into. The
/// offset pre-pass and the generator must agree on these counts exactly: the
/// pre-pass decides where variable storage begins, and the generator emits
/// into the words before it.
pub open spec fn expansion_len(t: AstView) -> int {
    match t {
        AstView::Define { .. } => 2,
        AstView::Add { .. } => 4,
        AstView::Subtract { .. } => 4,
        AstView::Multiply { .. } => 4,
        AstView::Divide { .. } => 4,
        AstView::Yeet { .. } => 4,
        AstView::Exit { .. } => 1,
        AstView::Jump { .. } => 1,
        AstView::Copy { .. } => 1,
        AstView::Equal { .. } => 3,
        AstView::NotEqual { .. } => 3,
        AstView::JumpIfHigherThan { .. } => 3,
        AstView::LabelDefenition(..) => 0,
    }
}

/// How many concrete instructions the abstract instructions before index `i`
/// expand into.
pub open spec fn emitted_before(l: Seq<AstView>, i: int) -> int
    decreases i,
{
    if i <= 0 {
        0
    } else {
        emitted_before(l, i - 1) + expansion_len(l[i - 1])
    }
}

/// How many concrete instructions the whole list expands into.
pub open spec fn total_expansion(l: Seq<AstView>) -> int {
    emitted_before(l, l.len() as int)
}

pub proof fn lemma_emitted_before_bounds(l: Seq<AstView>, i: int)
    ensures
        0 <= emitted_before(l, i),
        i >= 0 ==> emitted_before(l, i) <= 4 * i,
        forall|j: int| 0 <= j <= i ==> emitted_before(l, j) <= emitted_before(l, i),
    decreases i,
{
    if i > 0 {
        lemma_emitted_before_bounds(l, i - 1);
    }
}

/// The label table: every `LabelDefenition` maps its name to the address of
/// the next concrete instruction to be emitted, `(emitted so far + 1) * 4`;
/// a name defined more than once keeps its last definition. Labels are
/// gathered over the whole list before resolution, so forward references
/// are allowed.
pub open spec fn label_table_rec(
    l: Seq<AstView>,
    i: int,
    cnt: int,
    m: Map<Seq<char>, int>,
) -> Map<Seq<char>, int>
    decreases l.len() - i,
{
    if i < 0 || i >= l.len() {
        m
    } else {
        match l[i] {
            AstView::LabelDefenition(n) => label_table_rec(l, i + 1, cnt, m.insert(n, (cnt + 1) * 4)),
            t => label_table_rec(l, i + 1, cnt + expansion_len(t), m),
        }
    }
}

pub open spec fn label_table(l: Seq<AstView>) -> Map<Seq<char>, int> {
    label_table_rec(l, 0, 0, Map::empty())
}

/// The generator's running state: the variable table, the next free storage
/// index, the concrete instructions emitted so far, and the errors collected
/// so far.
#[verifier::ext_equal]
pub struct GenState {
    pub vars: Map<Seq<char>, int>,
    pub next: int,
    pub code: Seq<RawInstructions>,
    pub errs: Seq<CodeGenerationErrorView>,
}

pub open spec fn var_err(line: int, name: Seq<char>) -> CodeGenerationErrorView {
    CodeGenerationErrorView {
        type_of_error: CodeGenerationErrorTypeView::VariableDoesntExist { name },
        instruction_num: line,
    }
}

pub open spec fn label_err(line: int, name: Seq<char>) -> CodeGenerationErrorView {
    CodeGenerationErrorView {
        type_of_error: CodeGenerationErrorTypeView::LabelDoesntExist { name },
        instruction_num: line,
    }
}

/// The errors of three variable operands, given whether each is defined, in
/// operand order.
pub open spec fn missing_errs3(
    adef: bool,
    bdef: bool,
    cdef: bool,
    line: int,
    a: Seq<char>,
    b: Seq<char>,
    c: Seq<char>,
) -> Seq<CodeGenerationErrorView> {
    (if !adef {
        seq![var_err(line, a)]
    } else {
        Seq::empty()
    }) + (if !bdef {
        seq![var_err(line, b)]
    } else {
        Seq::empty()
    }) + (if !cdef {
        seq![var_err(line, c)]
    } else {
        Seq::empty()
    })
}

pub open spec fn missing_var_errs(
    vars: Map<Seq<char>, int>,
    line: int,
    a: Seq<char>,
    b: Seq<char>,
    c: Seq<char>,
) -> Seq<CodeGenerationErrorView> {
    missing_errs3(
        vars.contains_key(a),
        vars.contains_key(b),
        vars.contains_key(c),
        line,
        a,
        b,
        c,
    )
}

/// The four arithmetic operations that share the expansion shape
/// copy-copy-operate-write.
#[derive(Debug, Clone, Copy, PartialEq, Eq, Structural)]
pub enum ArithOp {
    Add,
    Sub,
    Mul,
    Div,
}

pub open spec fn arith_instr(op: ArithOp, a: u64, b: u64) -> RawInstructions {
    match op {
        ArithOp::Add => RawInstructions::ADD { a, b },
        ArithOp::Sub => RawInstructions::SUB { a, b },
        ArithOp::Mul => RawInstructions::MUL { a, b },
        ArithOp::Div => RawInstructions::DIV { a, b },
    }
}

pub open spec fn arith_view(op: ArithOp, a: Seq<char>, b: Seq<char>, c: Seq<char>) -> AstView {
    match op {
        ArithOp::Add => AstView::Add { a, b, c },
        ArithOp::Sub => AstView::Subtract { a, b, c },
        ArithOp::Mul => AstView::Multiply { a, b, c },
        ArithOp::Div => AstView::Divide { a, b, c },
    }
}

/// The three conditional jumps that share the expansion shape
/// copy-copy-compare.
#[derive(Debug, Clone, Copy, PartialEq, Eq, Structural)]
pub enum CmpOp {
    Equal,
    NotEqual,
    Jht,
}

pub open spec fn cmp_instr(op: CmpOp, a: u64, b: u64, c: u64) -> RawInstructions {
    match op {
        CmpOp::Equal => RawInstructions::Equal { a, b, c },
        CmpOp::NotEqual => RawInstructions::NotEqual { a, b, c },
        CmpOp::Jht => RawInstructions::JHT { a, b, c },
    }
}

pub open spec fn cmp_view(op: CmpOp, a: Seq<char>, b: Seq<char>, c: Seq<char>) -> AstView {
    match op {
        CmpOp::Equal => AstView::Equal { a, b, c },
        CmpOp::NotEqual => AstView::NotEqual { a, b, c },
        CmpOp::Jht => AstView::JumpIfHigherThan { a, b, c },
    }
}

/// `DEF`: allocate (or reuse) the variable's cell, then compute the literal
/// into the accumulator and store it there.
pub open spec fn step_define(s: GenState, name: Seq<char>, value: u64) -> GenState {
    let idx = if s.vars.contains_key(name) {
        s.vars[name]
    } else {
        s.next
    };
    GenState {
        vars: s.vars.insert(name, idx),
        next: if s.vars.contains_key(name) {
            s.next
        } else {
            s.next + 1
        },
        code: s.code + seq![
            RawInstructions::ADD { a: value, b: 0 },
            RawInstructions::WRITE { a: idx as u64 },
        ],
        ..s
    }
}

/// An arithmetic operator: patch the two operand cells of the upcoming
/// operation, operate, and write the result to the destination cell. Any
/// unresolved operand drops the whole instruction and records its error.
pub open spec fn step_arith3(
    s: GenState,
    line: int,
    a: Seq<char>,
    b: Seq<char>,
    c: Seq<char>,
    op: ArithOp,
) -> GenState {
    let es = missing_var_errs(s.vars, line, a, b, c);
    if es.len() > 0 {
        GenState { errs: s.errs + es, ..s }
    } else {
        let ia = s.vars[a] as u64;
        let ib = s.vars[b] as u64;
        let ic = s.vars[c] as u64;
        let base = s.code.len() as int;
        GenState {
            code: s.code + seq![
                RawInstructions::COPY { a: ia, b: ((base + 2) * 4 + 1) as u64 },
                RawInstructions::COPY { a: ib, b: ((base + 2) * 4 + 2) as u64 },
                arith_instr(op, ia, ib),
                RawInstructions::WRITE { a: ic },
            ],
            ..s
        }
    }
}

/// `YEET`: patch all three operand cells of the upcoming operation, then
/// emit it; nothing is written back.
pub open spec fn step_yeet(
    s: GenState,
    line: int,
    a: Seq<char>,
    b: Seq<char>,
    c: Seq<char>,
) -> GenState {
    let es = missing_var_errs(s.vars, line, a, b, c);
    if es.len() > 0 {
        GenState { errs: s.errs + es, ..s }
    } else {
        let ia = s.vars[a] as u64;
        let ib = s.vars[b] as u64;
        let ic = s.vars[c] as u64;
        let base = s.code.len() as int;
        GenState {
            code: s.code + seq![
                RawInstructions::COPY { a: ia, b: ((base + 3) * 4 + 1) as u64 },
                RawInstructions::COPY { a: ib, b: ((base + 3) * 4 + 2) as u64 },
                RawInstructions::COPY { a: ic, b: ((base + 3) * 4 + 3) as u64 },
                RawInstructions::YEET { a: ia, b: ib, c: ic },
            ],
            ..s
        }
    }
}

/// `EXIT`: resolve the code operand and emit a single instruction.
pub open spec fn step_exit(s: GenState, line: int, code_name: Seq<char>) -> GenState {
    if s.vars.contains_key(code_name) {
        GenState {
            code: s.code + seq![RawInstructions::EXIT { a: s.vars[code_name] as u64 }],
            ..s
        }
    } else {
        GenState { errs: s.errs + seq![var_err(line, code_name)], ..s }
    }
}

/// `JMP`: resolve the label against the whole source's label table and emit
/// a single instruction.
pub open spec fn step_jump(
    s: GenState,
    line: int,
    name: Seq<char>,
    labels: Map<Seq<char>, int>,
) -> GenState {
    if labels.contains_key(name) {
        GenState { code: s.code + seq![RawInstructions::JMP { a: labels[name] as u64 }], ..s }
    } else {
        GenState { errs: s.errs + seq![label_err(line, name)], ..s }
    }
}

/// `CPY`: resolve both operands and emit a single copy.
pub open spec fn step_copy(s: GenState, line: int, a: Seq<char>, b: Seq<char>) -> GenState {
    let es = (if !s.vars.contains_key(a) {
        seq![var_err(line, a)]
    } else {
        Seq::empty()
    }) + (if !s.vars.contains_key(b) {
        seq![var_err(line, b)]
    } else {
        Seq::empty()
    });
    if es.len() > 0 {
        GenState { errs: s.errs + es, ..s }
    } else {
        GenState {
            code: s.code + seq![
                RawInstructions::COPY { a: s.vars[a] as u64, b: s.vars[b] as u64 },
            ],
            ..s
        }
    }
}

/// `JE`/`JNE`/`JHT`: patch the two operand cells of the upcoming comparison,
/// then emit it carrying the label's address.
pub open spec fn step_cmp(
    s: GenState,
    line: int,
    a: Seq<char>,
    b: Seq<char>,
    c: Seq<char>,
    op: CmpOp,
    labels: Map<Seq<char>, int>,
) -> GenState {
    let es = (if !s.vars.contains_key(a) {
        seq![var_err(line, a)]
    } else {
        Seq::empty()
    }) + (if !s.vars.contains_key(b) {
        seq![var_err(line, b)]
    } else {
        Seq::empty()
    }) + (if !labels.contains_key(c) {
        seq![label_err(line, c)]
    } else {
        Seq::empty()
    });
    if es.len() > 0 {
        GenState { errs: s.errs + es, ..s }
    } else {
        let ia = s.vars[a] as u64;
        let ib = s.vars[b] as u64;
        let base = s.code.len() as int;
        GenState {
            code: s.code + seq![
                RawInstructions::COPY { a: ia, b: ((base + 2) * 4 + 1) as u64 },
                RawInstructions::COPY { a: ib, b: ((base + 2) * 4 + 2) as u64 },
                cmp_instr(op, ia, ib, labels[c] as u64),
            ],
            ..s
        }
    }
}

/// One step of the generator: how the state after an abstract instruction at
/// index `line` relates to the state before it.
pub open spec fn gen_step(
    s: GenState,
    t: AstView,
    line: int,
    labels: Map<Seq<char>, int>,
) -> GenState {
    match t {
        AstView::Define { name, a } => step_define(s, name, a),
        AstView::Add { a, b, c } => step_arith3(s, line, a, b, c, ArithOp::Add),
        AstView::Subtract { a, b, c } => step_arith3(s, line, a, b, c, ArithOp::Sub),
        AstView::Multiply { a, b, c } => step_arith3(s, line, a, b, c, ArithOp::Mul),
        AstView::Divide { a, b, c } => step_arith3(s, line, a, b, c, ArithOp::Div),
        AstView::Yeet { a, b, c } => step_yeet(s, line, a, b, c),
        AstView::Exit { code } => step_exit(s, line, code),
        AstView::LabelDefenition(..) => s,
        AstView::Jump { a } => step_jump(s, line, a, labels),
        AstView::Copy { a, b } => step_copy(s, line, a, b),
        AstView::Equal { a, b, c } => step_cmp(s, line, a, b, c, CmpOp::Equal, labels),
        AstView::NotEqual { a, b, c } => step_cmp(s, line, a, b, c, CmpOp::NotEqual, labels),
        AstView::JumpIfHigherThan { a, b, c } => step_cmp(s, line, a, b, c, CmpOp::Jht, labels),
    }
}

/// The generator's forward pass from index `i` onward.
pub open spec fn gen_from(
    l: Seq<AstView>,
    i: int,
    s: GenState,
    labels: Map<Seq<char>, int>,
) -> GenState
    decreases l.len() - i,
{
    if i < 0 || i >= l.len() {
        s
    } else {
        gen_from(l, i + 1, gen_step(s, l[i], i, labels), labels)
    }
}

/// The generator's starting state: no variables, no labels resolved yet, and
/// variable storage beginning right after the words the whole instruction
/// stream will occupy.
pub open spec fn init_state(l: Seq<AstView>) -> GenState {
    GenState {
        vars: Map::empty(),
        next: 4 * total_expansion(l),
        code: Seq::empty(),
        errs: Seq::empty(),
    }
}

/// The complete model of code generation for one abstract instruction list.
pub open spec fn gen(l: Seq<AstView>) -> GenState {
    gen_from(l, 0, init_state(l), label_table(l))
}

// ---------------------------------------------------------------------------
// Symbol tables
// ---------------------------------------------------------------------------

/// One row of a symbol table: a variable entry maps a name to its storage
/// cell, a label entry maps a name to an instruction address.
struct SymbolEntry {
    name: String,
    value: u64,
}

/// The finite map a symbol table denotes; a name entered twice keeps its
/// latest value.
spec fn sym_map(s: Seq<SymbolEntry>) -> Map<Seq<char>, int>
    decreases s.len(),
{
    if s.len() == 0 {
        Map::empty()
    } else {
        sym_map(s.drop_last()).insert(s.last().name@, s.last().value as int)
    }
}

proof fn lemma_sym_map_found(s: Seq<SymbolEntry>, j: int, n: Seq<char>)
    requires
        0 <= j < s.len(),
        s[j].name@ == n,
        forall|k: int| j < k < s.len() ==> s[k].name@ != n,
    ensures
        sym_map(s).contains_key(n),
        sym_map(s)[n] == s[j].value as int,
    decreases s.len(),
{
    if j == s.len() - 1 {
    } else {
        assert(forall|k: int| j < k < s.drop_last().len() ==> s.drop_last()[k].name@ != n);
        lemma_sym_map_found(s.drop_last(), j, n);
        assert(s.last().name@ != n);
    }
}

proof fn lemma_sym_map_absent(s: Seq<SymbolEntry>, n: Seq<char>)
    requires
        forall|k: int| 0 <= k < s.len() ==> s[k].name@ != n,
    ensures
        !sym_map(s).contains_key(n),
    decreases s.len(),
{
    if s.len() > 0 {
        lemma_sym_map_absent(s.drop_last(), n);
    }
}

/// Looks a name up in a symbol table; a name entered twice resolves to its
/// latest value.
fn find_symbol(t: &Vec<SymbolEntry>, name: &String) -> (r: Option<u64>)
    ensures
        match r {
            Some(v) => sym_map(t@).contains_key(name@) && sym_map(t@)[name@] == v as int,
            None => !sym_map(t@).contains_key(name@),
        },
{
    let mut i: usize = t.len();
    while i > 0
        invariant
            i <= t@.len(),
            forall|k: int| i <= k < t@.len() ==> t@[k].name@ != name@,
        decreases i,
    {
        i = i - 1;
        if t[i].name == *name {
            proof {
                lemma_sym_map_found(t@, i as int, name@);
            }
            return Some(t[i].value);
        }
    }
    proof {
        lemma_sym_map_absent(t@, name@);
    }
    None
}

proof fn lemma_errs_views_push(s: Seq<CodeGenerationError>, e: CodeGenerationError)
    ensures
        errs_views(s.push(e)) == errs_views(s).push(e@),
{
    assert(errs_views(s.push(e)) =~= errs_views(s).push(e@));
}

// ---------------------------------------------------------------------------
// The offset pre-pass
// ---------------------------------------------------------------------------

/// How many concrete instructions one abstract instruction expands into.
fn expansion_count(t: &AssASTTypes) -> (n: u64)
    ensures
        n as int == expansion_len(t@),
{
    match t {
        AssASTTypes::Define { .. } => 2,
        AssASTTypes::Add { .. } => 4,
        AssASTTypes::Subtract { .. } => 4,
        AssASTTypes::Multiply { .. } => 4,
        AssASTTypes::Divide { .. } => 4,
        AssASTTypes::Yeet { .. } => 4,
        AssASTTypes::Exit { .. } => 1,
        AssASTTypes::Jump { .. } => 1,
        AssASTTypes::Copy { .. } => 1,
        AssASTTypes::Equal { .. } => 3,
        AssASTTypes::NotEqual { .. } => 3,
        AssASTTypes::JumpIfHigherThan { .. } => 3,
        AssASTTypes::LabelDefenition(..) => 0,
    }
}

/// The offset pre-pass: the number of memory words the emitted instruction
/// stream will occupy, which is where variable storage begins. Every concrete
/// instruction occupies four words.
pub fn calculate_variable_offset(instructions: &Vec<AssASTTypes>) -> (r: u64)
    requires
        instructions@.len() <= MAX_PROGRAM_LEN,
    ensures
        r as int == 4 * total_expansion(views_of(instructions@)),
{
    let ghost vs = views_of(instructions@);
    let mut calc: u64 = 0;
    let mut i: usize = 0;
    while i < instructions.len()
        invariant
            i <= instructions@.len(),
            instructions@.len() <= MAX_PROGRAM_LEN,
            vs == views_of(instructions@),
            calc as int == emitted_before(vs, i as int),
            calc as int <= 4 * i,
        decreases instructions@.len() - i,
    {
        let e = expansion_count(&instructions[i]);
        proof {
            assert(vs[i as int] == instructions@[i as int]@);
            assert(emitted_before(vs, i + 1) == emitted_before(vs, i as int) + expansion_len(
                vs[i as int],
            ));
        }
        calc = calc + e;
        i = i + 1;
    }
    calc * 4
}

// ---------------------------------------------------------------------------
// The generator
// ---------------------------------------------------------------------------

/// Records a `VariableDoesntExist` error for each of three operands that did
/// not resolve, in operand order, and reports whether any was missing.
fn check_for_errors_with_3_vars(
    a_var: Option<u64>,
    errors: &mut Vec<CodeGenerationError>,
    line: usize,
    a: &Address,
    errored: &mut bool,
    b_var: Option<u64>,
    b: &Address,
    c_var: Option<u64>,
    c: &Address,
)
    ensures
        errs_views(final(errors)@) == errs_views(old(errors)@) + missing_errs3(
            a_var is Some,
            b_var is Some,
            c_var is Some,
            line as int,
            a@,
            b@,
            c@,
        ),
        *final(errored) == (*old(errored) || a_var is None || b_var is None || c_var is None),
{
    if a_var.is_none() {
        let e = CodeGenerationError {
            instruction_num: line,
            type_of_error: CodeGenerationErrorType::VariableDoesntExist { name: a.0.clone() },
        };
        proof {
            lemma_errs_views_push(errors@, e);
        }
        errors.push(e);
        *errored = true;
    }
    if b_var.is_none() {
        let e = CodeGenerationError {
            instruction_num: line,
            type_of_error: CodeGenerationErrorType::VariableDoesntExist { name: b.0.clone() },
        };
        proof {
            lemma_errs_views_push(errors@, e);
        }
        errors.push(e);
        *errored = true;
    }
    if c_var.is_none() {
        let e = CodeGenerationError {
            instruction_num: line,
            type_of_error: CodeGenerationErrorType::VariableDoesntExist { name: c.0.clone() },
        };
        proof {
            lemma_errs_views_push(errors@, e);
        }
        errors.push(e);
        *errored = true;
    }
    proof {
        assert(errs_views(final(errors)@) =~= errs_views(old(errors)@) + missing_errs3(
            a_var is Some,
            b_var is Some,
            c_var is Some,
            line as int,
            a@,
            b@,
            c@,
        ));
    }
}

/// One `DEF`: allocate or reuse the cell, then emit the literal computation
/// and the store.
fn step_define_exec(
    name: &Label,
    value: u64,
    vars: &mut Vec<SymbolEntry>,
    next: &mut u64,
    code: &mut Vec<RawInstructions>,
)
    requires
        *old(next) < u64::MAX,
    ensures
        final(code)@.len() == old(code)@.len() + 2,
        *old(next) <= *final(next) <= *old(next) + 1,
        forall|s_errs: Seq<CodeGenerationErrorView>, line: int, labels: Map<Seq<char>, int>|
            (GenState {
                vars: sym_map(final(vars)@),
                next: *final(next) as int,
                code: final(code)@,
                errs: s_errs,
            }) == gen_step(
                (GenState {
                    vars: sym_map(old(vars)@),
                    next: *old(next) as int,
                    code: old(code)@,
                    errs: s_errs,
                }),
                AstView::Define { name: name@, a: value },
                line,
                labels,
            ),
{
    let idx: u64 = match find_symbol(vars, &name.0) {
        Some(ix) => ix,
        None => {
            let ix = *next;
            *next = *next + 1;
            ix
        },
    };
    vars.push(SymbolEntry { name: name.0.clone(), value: idx });
    code.push(RawInstructions::ADD { a: value, b: 0 });
    code.push(RawInstructions::WRITE { a: idx });
    proof {
        assert(vars@.drop_last() =~= old(vars)@);
        assert(code@ =~= old(code)@ + seq![
            RawInstructions::ADD { a: value, b: 0 },
            RawInstructions::WRITE { a: idx },
        ]);
        assert forall|s_errs: Seq<CodeGenerationErrorView>, line: int, labels: Map<Seq<char>, int>|
            (GenState {
                vars: sym_map(vars@),
                next: *next as int,
                code: code@,
                errs: s_errs,
            }) == gen_step(
            (GenState {
                vars: sym_map(old(vars)@),
                next: *old(next) as int,
                code: old(code)@,
                errs: s_errs,
            }),
            AstView::Define { name: name@, a: value },
            line,
            labels,
        ) by {
            let s0 = GenState {
                vars: sym_map(old(vars)@),
                next: *old(next) as int,
                code: old(code)@,
                errs: s_errs,
            };
            assert((GenState {
                vars: sym_map(vars@),
                next: *next as int,
                code: code@,
                errs: s_errs,
            }) =~= step_define(s0, name@, value));
        }
    }
}

/// One arithmetic operator: resolve the three operands, collect errors for
/// any that are missing, and otherwise emit the two operand patches, the
/// operation, and the store of the result.
fn step_arith3_exec(
    op: ArithOp,
    a: &Address,
    b: &Address,
    c: &Address,
    line: usize,
    vars: &Vec<SymbolEntry>,
    code: &mut Vec<RawInstructions>,
    errors: &mut Vec<CodeGenerationError>,
)
    requires
        old(code)@.len() <= 0x2000_0000_0000_0000,
    ensures
        old(code)@.len() <= final(code)@.len() <= old(code)@.len() + 4,
        forall|next0: int, labels: Map<Seq<char>, int>|
            (GenState {
                vars: sym_map(vars@),
                next: next0,
                code: final(code)@,
                errs: errs_views(final(errors)@),
            }) == gen_step(
                (GenState {
                    vars: sym_map(vars@),
                    next: next0,
                    code: old(code)@,
                    errs: errs_views(old(errors)@),
                }),
                arith_view(op, a@, b@, c@),
                line as int,
                labels,
            ),
{
    let a_var = find_symbol(vars, &a.0);
    let b_var = find_symbol(vars, &b.0);
    let c_var = find_symbol(vars, &c.0);
    let mut errored = false;
    check_for_errors_with_3_vars(a_var, errors, line, a, &mut errored, b_var, b, c_var, c);
    if errored {
        proof {
            assert forall|next0: int, labels: Map<Seq<char>, int>|
                (GenState {
                    vars: sym_map(vars@),
                    next: next0,
                    code: code@,
                    errs: errs_views(errors@),
                }) == gen_step(
                (GenState {
                    vars: sym_map(vars@),
                    next: next0,
                    code: old(code)@,
                    errs: errs_views(old(errors)@),
                }),
                arith_view(op, a@, b@, c@),
                line as int,
                labels,
            ) by {
                let s0 = GenState {
                    vars: sym_map(vars@),
                    next: next0,
                    code: old(code)@,
                    errs: errs_views(old(errors)@),
                };
                assert((GenState {
                    vars: sym_map(vars@),
                    next: next0,
                    code: code@,
                    errs: errs_views(errors@),
                }) =~= step_arith3(s0, line as int, a@, b@, c@, op));
            }
        }
        return ;
    }
    let ia = a_var.unwrap();
    let ib = b_var.unwrap();
    let ic = c_var.unwrap();
    let base = code.len() as u64;
    code.push(RawInstructions::COPY { a: ia, b: (base + 2) * 4 + 1 });
    code.push(RawInstructions::COPY { a: ib, b: (base + 2) * 4 + 2 });
    match op {
        ArithOp::Add => code.push(RawInstructions::ADD { a: ia, b: ib }),
        ArithOp::Sub => code.push(RawInstructions::SUB { a: ia, b: ib }),
        ArithOp::Mul => code.push(RawInstructions::MUL { a: ia, b: ib }),
        ArithOp::Div => code.push(RawInstructions::DIV { a: ia, b: ib }),
    }
    code.push(RawInstructions::WRITE { a: ic });
    proof {
        assert forall|next0: int, labels: Map<Seq<char>, int>|
            (GenState {
                vars: sym_map(vars@),
                next: next0,
                code: code@,
                errs: errs_views(errors@),
            }) == gen_step(
            (GenState {
                vars: sym_map(vars@),
                next: next0,
                code: old(code)@,
                errs: errs_views(old(errors)@),
            }),
            arith_view(op, a@, b@, c@),
            line as int,
            labels,
        ) by {
            let s0 = GenState {
                vars: sym_map(vars@),
                next: next0,
                code: old(code)@,
                errs: errs_views(old(errors)@),
            };
            assert(missing_var_errs(s0.vars, line as int, a@, b@, c@) =~= Seq::<
                CodeGenerationErrorView,
            >::empty());
            assert(errs_views(errors@) =~= errs_views(old(errors)@));
            assert(code@ =~= old(code)@ + seq![
                RawInstructions::COPY { a: ia, b: ((base + 2) * 4 + 1) as u64 },
                RawInstructions::COPY { a: ib, b: ((base + 2) * 4 + 2) as u64 },
                arith_instr(op, ia, ib),
                RawInstructions::WRITE { a: ic },
            ]);
            assert((GenState {
                vars: sym_map(vars@),
                next: next0,
                code: code@,
                errs: errs_views(errors@),
            }) =~= step_arith3(s0, line as int, a@, b@, c@, op));
        }
    }
}

/// One `YEET`: resolve the three operands, collect errors for any that are
/// missing, and otherwise patch all three operand cells of the upcoming
/// operation and emit it.
fn step_yeet_exec(
    a: &Address,
    b: &Address,
    c: &Address,
    line: usize,
    vars: &Vec<SymbolEntry>,
    code: &mut Vec<RawInstructions>,
    errors: &mut Vec<CodeGenerationError>,
)
    requires
        old(code)@.len() <= 0x2000_0000_0000_0000,
    ensures
        old(code)@.len() <= final(code)@.len() <= old(code)@.len() + 4,
        forall|next0: int, labels: Map<Seq<char>, int>|
            (GenState {
                vars: sym_map(vars@),
                next: next0,
                code: final(code)@,
                errs: errs_views(final(errors)@),
            }) == gen_step(
                (GenState {
                    vars: sym_map(vars@),
                    next: next0,
                    code: old(code)@,
                    errs: errs_views(old(errors)@),
                }),
                AstView::Yeet { a: a@, b: b@, c: c@ },
                line as int,
                labels,
            ),
{
    let a_var = find_symbol(vars, &a.0);
    let b_var = find_symbol(vars, &b.0);
    let c_var = find_symbol(vars, &c.0);
    let mut errored = false;
    check_for_errors_with_3_vars(a_var, errors, line, a, &mut errored, b_var, b, c_var, c);
    if errored {
        proof {
            assert forall|next0: int, labels: Map<Seq<char>, int>|
                (GenState {
                    vars: sym_map(vars@),
                    next: next0,
                    code: code@,
                    errs: errs_views(errors@),
                }) == gen_step(
                (GenState {
                    vars: sym_map(vars@),
                    next: next0,
                    code: old(code)@,
                    errs: errs_views(old(errors)@),
                }),
                AstView::Yeet { a: a@, b: b@, c: c@ },
                line as int,
                labels,
            ) by {
                let s0 = GenState {
                    vars: sym_map(vars@),
                    next: next0,
                    code: old(code)@,
                    errs: errs_views(old(errors)@),
                };
                assert((GenState {
                    vars: sym_map(vars@),
                    next: next0,
                    code: code@,
                    errs: errs_views(errors@),
                }) =~= step_yeet(s0, line as int, a@, b@, c@));
            }
        }
        return ;
    }
    let ia = a_var.unwrap();
    let ib = b_var.unwrap();
    let ic = c_var.unwrap();
    let base = code.len() as u64;
    code.push(RawInstructions::COPY { a: ia, b: (base + 3) * 4 + 1 });
    code.push(RawInstructions::COPY { a: ib, b: (base + 3) * 4 + 2 });
    code.push(RawInstructions::COPY { a: ic, b: (base + 3) * 4 + 3 });
    code.push(RawInstructions::YEET { a: ia, b: ib, c: ic });
    proof {
        assert forall|next0: int, labels: Map<Seq<char>, int>|
            (GenState {
                vars: sym_map(vars@),
                next: next0,
                code: code@,
                errs: errs_views(errors@),
            }) == gen_step(
            (GenState {
                vars: sym_map(vars@),
                next: next0,
                code: old(code)@,
                errs: errs_views(old(errors)@),
            }),
            AstView::Yeet { a: a@, b: b@, c: c@ },
            line as int,
            labels,
        ) by {
            let s0 = GenState {
                vars: sym_map(vars@),
                next: next0,
                code: old(code)@,
                errs: errs_views(old(errors)@),
            };
            assert(missing_var_errs(s0.vars, line as int, a@, b@, c@) =~= Seq::<
                CodeGenerationErrorView,
            >::empty());
            assert(errs_views(errors@) =~= errs_views(old(errors)@));
            assert(code@ =~= old(code)@ + seq![
                RawInstructions::COPY { a: ia, b: ((base + 3) * 4 + 1) as u64 },
                RawInstructions::COPY { a: ib, b: ((base + 3) * 4 + 2) as u64 },
                RawInstructions::COPY { a: ic, b: ((base + 3) * 4 + 3) as u64 },
                RawInstructions::YEET { a: ia, b: ib, c: ic },
            ]);
            assert((GenState {
                vars: sym_map(vars@),
                next: next0,
                code: code@,
                errs: errs_views(errors@),
            }) =~= step_yeet(s0, line as int, a@, b@, c@));
        }
    }
}

/// One `EXIT`: resolve the code operand; emit a single instruction or record
/// the error.
fn step_exit_exec(
    code_name: &Address,
    line: usize,
    vars: &Vec<SymbolEntry>,
    code: &mut Vec<RawInstructions>,
    errors: &mut Vec<CodeGenerationError>,
)
    ensures
        old(code)@.len() <= final(code)@.len() <= old(code)@.len() + 1,
        forall|next0: int, labels: Map<Seq<char>, int>|
            (GenState {
                vars: sym_map(vars@),
                next: next0,
                code: final(code)@,
                errs: errs_views(final(errors)@),
            }) == gen_step(
                (GenState {
                    vars: sym_map(vars@),
                    next: next0,
                    code: old(code)@,
                    errs: errs_views(old(errors)@),
                }),
                AstView::Exit { code: code_name@ },
                line as int,
                labels,
            ),
{
    match find_symbol(vars, &code_name.0) {
        Some(ia) => {
            code.push(RawInstructions::EXIT { a: ia });
            proof {
                assert(code@ =~= old(code)@ + seq![RawInstructions::EXIT { a: ia }]);
            }
        },
        None => {
            let e = CodeGenerationError {
                instruction_num: line,
                type_of_error: CodeGenerationErrorType::VariableDoesntExist {
                    name: code_name.0.clone(),
                },
            };
            proof {
                lemma_errs_views_push(errors@, e);
            }
            errors.push(e);
            proof {
                assert(errs_views(errors@) =~= errs_views(old(errors)@) + seq![
                    var_err(line as int, code_name@),
                ]);
            }
        },
    }
    proof {
        assert forall|next0: int, labels: Map<Seq<char>, int>|
            (GenState {
                vars: sym_map(vars@),
                next: next0,
                code: code@,
                errs: errs_views(errors@),
            }) == gen_step(
            (GenState {
                vars: sym_map(vars@),
                next: next0,
                code: old(code)@,
                errs: errs_views(old(errors)@),
            }),
            AstView::Exit { code: code_name@ },
            line as int,
            labels,
        ) by {
            let s0 = GenState {
                vars: sym_map(vars@),
                next: next0,
                code: old(code)@,
                errs: errs_views(old(errors)@),
            };
            assert((GenState {
                vars: sym_map(vars@),
                next: next0,
                code: code@,
                errs: errs_views(errors@),
            }) =~= step_exit(s0, line as int, code_name@));
        }
    }
}

/// One `JMP`: resolve the label against the whole source's label table; emit
/// a single instruction or record the error.
fn step_jump_exec(
    a: &Label,
    line: usize,
    label_entries: &Vec<SymbolEntry>,
    code: &mut Vec<RawInstructions>,
    errors: &mut Vec<CodeGenerationError>,
)
    ensures
        old(code)@.len() <= final(code)@.len() <= old(code)@.len() + 1,
        forall|next0: int, vars0: Map<Seq<char>, int>|
            (GenState {
                vars: vars0,
                next: next0,
                code: final(code)@,
                errs: errs_views(final(errors)@),
            }) == gen_step(
                (GenState {
                    vars: vars0,
                    next: next0,
                    code: old(code)@,
                    errs: errs_views(old(errors)@),
                }),
                AstView::Jump { a: a@ },
                line as int,
                sym_map(label_entries@),
            ),
{
    match find_symbol(label_entries, &a.0) {
        Some(addr) => {
            code.push(RawInstructions::JMP { a: addr });
            proof {
                assert(code@ =~= old(code)@ + seq![RawInstructions::JMP { a: addr }]);
            }
        },
        None => {
            let e = CodeGenerationError {
                instruction_num: line,
                type_of_error: CodeGenerationErrorType::LabelDoesntExist { name: a.0.clone() },
            };
            proof {
                lemma_errs_views_push(errors@, e);
            }
            errors.push(e);
            proof {
                assert(errs_views(errors@) =~= errs_views(old(errors)@) + seq![
                    label_err(line as int, a@),
                ]);
            }
        },
    }
    proof {
        assert forall|next0: int, vars0: Map<Seq<char>, int>|
            (GenState {
                vars: vars0,
                next: next0,
                code: code@,
                errs: errs_views(errors@),
            }) == gen_step(
            (GenState { vars: vars0, next: next0, code: old(code)@, errs: errs_views(old(errors)@) }),
            AstView::Jump { a: a@ },
            line as int,
            sym_map(label_entries@),
        ) by {
            let s0 = GenState {
                vars: vars0,
                next: next0,
                code: old(code)@,
                errs: errs_views(old(errors)@),
            };
            assert((GenState {
                vars: vars0,
                next: next0,
                code: code@,
                errs: errs_views(errors@),
            }) =~= step_jump(s0, line as int, a@, sym_map(label_entries@)));
        }
    }
}

/// One `CPY`: resolve both operands; emit a single copy or record the errors.
fn step_copy_exec(
    a: &Address,
    b: &Address,
    line: usize,
    vars: &Vec<SymbolEntry>,
    code: &mut Vec<RawInstructions>,
    errors: &mut Vec<CodeGenerationError>,
)
    ensures
        old(code)@.len() <= final(code)@.len() <= old(code)@.len() + 1,
        forall|next0: int, labels: Map<Seq<char>, int>|
            (GenState {
                vars: sym_map(vars@),
                next: next0,
                code: final(code)@,
                errs: errs_views(final(errors)@),
            }) == gen_step(
                (GenState {
                    vars: sym_map(vars@),
                    next: next0,
                    code: old(code)@,
                    errs: errs_views(old(errors)@),
                }),
                AstView::Copy { a: a@, b: b@ },
                line as int,
                labels,
            ),
{
    let a_var = find_symbol(vars, &a.0);
    let b_var = find_symbol(vars, &b.0);
    if a_var.is_none() || b_var.is_none() {
        if a_var.is_none() {
            let e = CodeGenerationError {
                instruction_num: line,
                type_of_error: CodeGenerationErrorType::VariableDoesntExist { name: a.0.clone() },
            };
            proof {
                lemma_errs_views_push(errors@, e);
            }
            errors.push(e);
        }
        if b_var.is_none() {
            let e = CodeGenerationError {
                instruction_num: line,
                type_of_error: CodeGenerationErrorType::VariableDoesntExist { name: b.0.clone() },
            };
            proof {
                lemma_errs_views_push(errors@, e);
            }
            errors.push(e);
        }
    } else {
        code.push(RawInstructions::COPY { a: a_var.unwrap(), b: b_var.unwrap() });
    }
    proof {
        assert forall|next0: int, labels: Map<Seq<char>, int>|
            (GenState {
                vars: sym_map(vars@),
                next: next0,
                code: code@,
                errs: errs_views(errors@),
            }) == gen_step(
            (GenState {
                vars: sym_map(vars@),
                next: next0,
                code: old(code)@,
                errs: errs_views(old(errors)@),
            }),
            AstView::Copy { a: a@, b: b@ },
            line as int,
            labels,
        ) by {
            let s0 = GenState {
                vars: sym_map(vars@),
                next: next0,
                code: old(code)@,
                errs: errs_views(old(errors)@),
            };
            let es = (if !s0.vars.contains_key(a@) {
                seq![var_err(line as int, a@)]
            } else {
                Seq::empty()
            }) + (if !s0.vars.contains_key(b@) {
                seq![var_err(line as int, b@)]
            } else {
                Seq::empty()
            });
            if a_var is None || b_var is None {
                assert(errs_views(errors@) =~= s0.errs + es);
            } else {
                assert(es =~= Seq::<CodeGenerationErrorView>::empty());
                assert(code@ =~= old(code)@ + seq![
                    RawInstructions::COPY { a: a_var.unwrap(), b: b_var.unwrap() },
                ]);
            }
            assert((GenState {
                vars: sym_map(vars@),
                next: next0,
                code: code@,
                errs: errs_views(errors@),
            }) =~= step_copy(s0, line as int, a@, b@));
        }
    }
}

/// One `JE`/`JNE`/`JHT`: resolve the two operands and the label; emit the two
/// operand patches and the comparison, or record the errors.
fn step_cmp_exec(
    op: CmpOp,
    a: &Address,
    b: &Address,
    c: &Label,
    line: usize,
    vars: &Vec<SymbolEntry>,
    label_entries: &Vec<SymbolEntry>,
    code: &mut Vec<RawInstructions>,
    errors: &mut Vec<CodeGenerationError>,
)
    requires
        old(code)@.len() <= 0x2000_0000_0000_0000,
    ensures
        old(code)@.len() <= final(code)@.len() <= old(code)@.len() + 3,
        forall|next0: int|
            (GenState {
                vars: sym_map(vars@),
                next: next0,
                code: final(code)@,
                errs: errs_views(final(errors)@),
            }) == gen_step(
                (GenState {
                    vars: sym_map(vars@),
                    next: next0,
                    code: old(code)@,
                    errs: errs_views(old(errors)@),
                }),
                cmp_view(op, a@, b@, c@),
                line as int,
                sym_map(label_entries@),
            ),
{
    let a_var = find_symbol(vars, &a.0);
    let b_var = find_symbol(vars, &b.0);
    let c_var = find_symbol(label_entries, &c.0);
    if a_var.is_none() || b_var.is_none() || c_var.is_none() {
        if a_var.is_none() {
            let e = CodeGenerationError {
                instruction_num: line,
                type_of_error: CodeGenerationErrorType::VariableDoesntExist { name: a.0.clone() },
            };
            proof {
                lemma_errs_views_push(errors@, e);
            }
            errors.push(e);
        }
        if b_var.is_none() {
            let e = CodeGenerationError {
                instruction_num: line,
                type_of_error: CodeGenerationErrorType::VariableDoesntExist { name: b.0.clone() },
            };
            proof {
                lemma_errs_views_push(errors@, e);
            }
            errors.push(e);
        }
        if c_var.is_none() {
            let e = CodeGenerationError {
                instruction_num: line,
                type_of_error: CodeGenerationErrorType::LabelDoesntExist { name: c.0.clone() },
            };
            proof {
                lemma_errs_views_push(errors@, e);
            }
            errors.push(e);
        }
    } else {
        let ia = a_var.unwrap();
        let ib = b_var.unwrap();
        let addr = c_var.unwrap();
        let base = code.len() as u64;
        code.push(RawInstructions::COPY { a: ia, b: (base + 2) * 4 + 1 });
        code.push(RawInstructions::COPY { a: ib, b: (base + 2) * 4 + 2 });
        match op {
            CmpOp::Equal => code.push(RawInstructions::Equal { a: ia, b: ib, c: addr }),
            CmpOp::NotEqual => code.push(RawInstructions::NotEqual { a: ia, b: ib, c: addr }),
            CmpOp::Jht => code.push(RawInstructions::JHT { a: ia, b: ib, c: addr }),
        }
    }
    proof {
        assert forall|next0: int|
            (GenState {
                vars: sym_map(vars@),
                next: next0,
                code: code@,
                errs: errs_views(errors@),
            }) == gen_step(
            (GenState {
                vars: sym_map(vars@),
                next: next0,
                code: old(code)@,
                errs: errs_views(old(errors)@),
            }),
            cmp_view(op, a@, b@, c@),
            line as int,
            sym_map(label_entries@),
        ) by {
            let labels = sym_map(label_entries@);
            let s0 = GenState {
                vars: sym_map(vars@),
                next: next0,
                code: old(code)@,
                errs: errs_views(old(errors)@),
            };
            let es = (if !s0.vars.contains_key(a@) {
                seq![var_err(line as int, a@)]
            } else {
                Seq::empty()
            }) + (if !s0.vars.contains_key(b@) {
                seq![var_err(line as int, b@)]
            } else {
                Seq::empty()
            }) + (if !labels.contains_key(c@) {
                seq![label_err(line as int, c@)]
            } else {
                Seq::empty()
            });
            if a_var is None || b_var is None || c_var is None {
                assert(errs_views(errors@) =~= s0.errs + es);
            } else {
                let ia = a_var.unwrap();
                let ib = b_var.unwrap();
                let addr = c_var.unwrap();
                let base = old(code)@.len() as int;
                assert(es =~= Seq::<CodeGenerationErrorView>::empty());
                assert(code@ =~= old(code)@ + seq![
                    RawInstructions::COPY { a: ia, b: ((base + 2) * 4 + 1) as u64 },
                    RawInstructions::COPY { a: ib, b: ((base + 2) * 4 + 2) as u64 },
                    cmp_instr(op, ia, ib, addr),
                ]);
            }
            assert((GenState {
                vars: sym_map(vars@),
                next: next0,
                code: code@,
                errs: errs_views(errors@),
            }) =~= step_cmp(s0, line as int, a@, b@, c@, op, labels));
        }
    }
}


/// The code generator: consumes the abstract instruction list and produces
/// either the complete concrete instruction list or the full set of symbol
/// resolution errors, never both and never a truncated list.
///
/// Labels are gathered from the whole list first, so a jump may reference a
/// label defined later in the source; a label referenced but defined nowhere
/// is an error. Errors are collected across the whole pass: each offending
/// instruction is dropped and the pass continues, and any collected error
/// voids the entire output.
pub fn generate_code(parsed_types: Vec<AssASTTypes>) -> (r: Result<
    Vec<RawInstructions>,
    Vec<CodeGenerationError>,
>)
    requires
        parsed_types@.len() <= MAX_PROGRAM_LEN,
    ensures
        ({
            let m = gen(views_of(parsed_types@));
            match r {
                Ok(code) => m.errs.len() == 0 && code@ == m.code,
                Err(errors) => m.errs.len() > 0 && errs_views(errors@) == m.errs,
            }
        }),
{
    let ghost vs = views_of(parsed_types@);
    let offset = calculate_variable_offset(&parsed_types);

    // First gather every label definition, so that forward references resolve.
    let mut label_entries: Vec<SymbolEntry> = Vec::new();
    let mut cnt: u64 = 0;
    let mut i: usize = 0;
    while i < parsed_types.len()
        invariant
            i <= parsed_types@.len(),
            parsed_types@.len() <= MAX_PROGRAM_LEN,
            vs == views_of(parsed_types@),
            cnt as int == emitted_before(vs, i as int),
            label_table(vs) == label_table_rec(vs, i as int, cnt as int, sym_map(label_entries@)),
        decreases parsed_types@.len() - i,
    {
        proof {
            assert(vs[i as int] == parsed_types@[i as int]@);
            lemma_emitted_before_bounds(vs, i as int);
        }
        let e = expansion_count(&parsed_types[i]);
        if let AssASTTypes::LabelDefenition(l) = &parsed_types[i] {
            let addr = (cnt + 1) * 4;
            let ghost le_old = label_entries@;
            label_entries.push(SymbolEntry { name: l.0.clone(), value: addr });
            proof {
                assert(label_entries@.drop_last() =~= le_old);
                assert(sym_map(label_entries@) == sym_map(le_old).insert(l@, addr as int));
            }
        }
        proof {
            assert(emitted_before(vs, i + 1) == emitted_before(vs, i as int) + expansion_len(
                vs[i as int],
            ));
        }
        cnt = cnt + e;
        i = i + 1;
    }
    let ghost lt = label_table(vs);
    proof {
        assert(lt == sym_map(label_entries@));
    }

    // The forward pass.
    let mut vars: Vec<SymbolEntry> = Vec::new();
    let mut next: u64 = offset;
    let mut code: Vec<RawInstructions> = Vec::new();
    let mut errors: Vec<CodeGenerationError> = Vec::new();
    proof {
        lemma_emitted_before_bounds(vs, vs.len() as int);
        assert(errs_views(errors@) =~= Seq::<CodeGenerationErrorView>::empty());
        assert((GenState {
            vars: sym_map(vars@),
            next: next as int,
            code: code@,
            errs: errs_views(errors@),
        }) =~= init_state(vs));
    }
    i = 0;
    while i < parsed_types.len()
        invariant
            i <= parsed_types@.len(),
            parsed_types@.len() <= MAX_PROGRAM_LEN,
            vs == views_of(parsed_types@),
            lt == label_table(vs),
            sym_map(label_entries@) == lt,
            gen(vs) == gen_from(
                vs,
                i as int,
                (GenState {
                    vars: sym_map(vars@),
                    next: next as int,
                    code: code@,
                    errs: errs_views(errors@),
                }),
                lt,
            ),
            code@.len() <= 4 * i,
            next as int <= 4 * total_expansion(vs) + i,
        decreases parsed_types@.len() - i,
    {
        let ghost s_i = GenState {
            vars: sym_map(vars@),
            next: next as int,
            code: code@,
            errs: errs_views(errors@),
        };
        proof {
            assert(vs[i as int] == parsed_types@[i as int]@);
            lemma_emitted_before_bounds(vs, vs.len() as int);
        }
        match &parsed_types[i] {
            AssASTTypes::Define { name, a } => {
                proof {
                    assert(vs[i as int] == AstView::Define { name: name@, a: *a });
                }
                step_define_exec(name, *a, &mut vars, &mut next, &mut code);
            },
            AssASTTypes::Add { a, b, c } => {
                proof {
                    assert(vs[i as int] == arith_view(ArithOp::Add, a@, b@, c@));
                }
                step_arith3_exec(ArithOp::Add, a, b, c, i, &vars, &mut code, &mut errors);
            },
            AssASTTypes::Subtract { a, b, c } => {
                proof {
                    assert(vs[i as int] == arith_view(ArithOp::Sub, a@, b@, c@));
                }
                step_arith3_exec(ArithOp::Sub, a, b, c, i, &vars, &mut code, &mut errors);
            },
            AssASTTypes::Multiply { a, b, c } => {
                proof {
                    assert(vs[i as int] == arith_view(ArithOp::Mul, a@, b@, c@));
                }
                step_arith3_exec(ArithOp::Mul, a, b, c, i, &vars, &mut code, &mut errors);
            },
            AssASTTypes::Divide { a, b, c } => {
                proof {
                    assert(vs[i as int] == arith_view(ArithOp::Div, a@, b@, c@));
                }
                step_arith3_exec(ArithOp::Div, a, b, c, i, &vars, &mut code, &mut errors);
            },
            AssASTTypes::Yeet { a, b, c } => {
                proof {
                    assert(vs[i as int] == AstView::Yeet { a: a@, b: b@, c: c@ });
                }
                step_yeet_exec(a, b, c, i, &vars, &mut code, &mut errors);
            },
            AssASTTypes::Exit { code: code_name } => {
                proof {
                    assert(vs[i as int] == AstView::Exit { code: code_name@ });
                }
                step_exit_exec(code_name, i, &vars, &mut code, &mut errors);
            },
            AssASTTypes::LabelDefenition(l) => {
                proof {
                    assert(vs[i as int] == AstView::LabelDefenition(l@));
                }
            },
            AssASTTypes::Jump { a } => {
                proof {
                    assert(vs[i as int] == AstView::Jump { a: a@ });
                }
                step_jump_exec(a, i, &label_entries, &mut code, &mut errors);
            },
            AssASTTypes::Copy { a, b } => {
                proof {
                    assert(vs[i as int] == AstView::Copy { a: a@, b: b@ });
                }
                step_copy_exec(a, b, i, &vars, &mut code, &mut errors);
            },
            AssASTTypes::Equal { a, b, c } => {
                proof {
                    assert(vs[i as int] == cmp_view(CmpOp::Equal, a@, b@, c@));
                }
                step_cmp_exec(CmpOp::Equal, a, b, c, i, &vars, &label_entries, &mut code, &mut errors);
            },
            AssASTTypes::NotEqual { a, b, c } => {
                proof {
                    assert(vs[i as int] == cmp_view(CmpOp::NotEqual, a@, b@, c@));
                }
                step_cmp_exec(
                    CmpOp::NotEqual,
                    a,
                    b,
                    c,
                    i,
                    &vars,
                    &label_entries,
                    &mut code,
                    &mut errors,
                );
            },
            AssASTTypes::JumpIfHigherThan { a, b, c } => {
                proof {
                    assert(vs[i as int] == cmp_view(CmpOp::Jht, a@, b@, c@));
                }
                step_cmp_exec(CmpOp::Jht, a, b, c, i, &vars, &label_entries, &mut code, &mut errors);
            },
        }
        proof {
            let s_new = GenState {
                vars: sym_map(vars@),
                next: next as int,
                code: code@,
                errs: errs_views(errors@),
            };
            assert(s_new == gen_step(s_i, vs[i as int], i as int, lt));
            assert(gen_from(vs, i as int, s_i, lt) == gen_from(
                vs,
                i + 1,
                gen_step(s_i, vs[i as int], i as int, lt),
                lt,
            ));
        }
        i = i + 1;
    }
    proof {
        let s_fin = GenState {
            vars: sym_map(vars@),
            next: next as int,
            code: code@,
            errs: errs_views(errors@),
        };
        assert(gen_from(vs, parsed_types@.len() as int, s_fin, lt) == s_fin);
        assert(gen(vs) == s_fin);
    }
    if errors.len() > 0 {
        Err(errors)
    } else {
        Ok(code)
    }
}

} // verus!\n