//! Properties of code generation, stated and proved over the generation
//! model: how errors, emitted code, the variable table and the label table
//! evolve across a run, and the guarantees the generator gives about symbol
//! resolution, label addresses and allocation.

use vstd::prelude::*;
use crate::ast::AstView;
use crate::code_gen::{
    emitted_before, expansion_len, gen, gen_from, gen_step, init_state, label_err, label_table,
    label_table_rec, missing_var_errs, total_expansion, var_err, GenState,
    RawInstructions,
};

verus! {

/// The generator's state after its first `i` steps.
pub open spec fn state_at(l: Seq<AstView>, labels: Map<Seq<char>, int>, i: int) -> GenState
    decreases i,
{
    if i <= 0 {
        init_state(l)
    } else {
        gen_step(state_at(l, labels, i - 1), l[i - 1], i - 1, labels)
    }
}

proof fn lemma_gen_from_state_at(l: Seq<AstView>, labels: Map<Seq<char>, int>, i: int)
    requires
        0 <= i <= l.len(),
    ensures
        gen_from(l, 0, init_state(l), labels) == gen_from(l, i, state_at(l, labels, i), labels),
    decreases i,
{
    if i > 0 {
        lemma_gen_from_state_at(l, labels, i - 1);
        assert(gen_from(l, i - 1, state_at(l, labels, i - 1), labels) == gen_from(
            l,
            i,
            gen_step(state_at(l, labels, i - 1), l[i - 1], i - 1, labels),
            labels,
        ));
    }
}

/// The whole run is the last of its states.
pub proof fn lemma_gen_is_state_at(l: Seq<AstView>)
    ensures
        gen(l) == state_at(l, label_table(l), l.len() as int),
{
    lemma_gen_from_state_at(l, label_table(l), l.len() as int);
}

/// A name is established as a variable before index `i`.
pub open spec fn defined_before(l: Seq<AstView>, i: int, n: Seq<char>) -> bool {
    exists|k: int|
        0 <= k < i && (#[trigger] l[k] matches AstView::Define { name, .. } && name == n)
}

/// A name is defined as a label somewhere in the list.
pub open spec fn label_defined(l: Seq<AstView>, n: Seq<char>) -> bool {
    exists|k: int|
        0 <= k < l.len() && (#[trigger] l[k] matches AstView::LabelDefenition(nm) && nm == n)
}

/// One step of the generator only appends to the error list and the code,
/// stamps every new error with its own line, emits exactly its expansion
/// count when nothing went wrong and nothing otherwise, and only a `DEF`
/// touches the variable table, never changing an established address.
#[verifier::rlimit(100)]
#[verifier::spinoff_prover]
proof fn lemma_step_shape(s: GenState, t: AstView, line: int, labels: Map<Seq<char>, int>)
    ensures
        ({
            let s2 = gen_step(s, t, line, labels);
            &&& s.errs.len() <= s2.errs.len()
            &&& forall|k: int| 0 <= k < s.errs.len() ==> s2.errs[k] == s.errs[k]
            &&& forall|k: int|
                s.errs.len() <= k < s2.errs.len() ==> #[trigger] s2.errs[k].instruction_num
                    == line
            &&& s.code.len() <= s2.code.len() <= s.code.len() + expansion_len(t)
            &&& forall|k: int| 0 <= k < s.code.len() ==> s2.code[k] == s.code[k]
            &&& (s2.errs.len() == s.errs.len() <==> s2.code.len() == s.code.len()
                + expansion_len(t))
            &&& s.next <= s2.next
            &&& forall|n: Seq<char>|
                s.vars.contains_key(n) ==> #[trigger] s2.vars.contains_key(n) && s2.vars[n]
                    == s.vars[n]
            &&& forall|n: Seq<char>|
                #[trigger] s2.vars.contains_key(n) <==> (s.vars.contains_key(n) || (t matches
                AstView::Define { name, .. } && name == n))
        }),
{
    let s2 = gen_step(s, t, line, labels);
    match t {
        AstView::Define { name, a } => {},
        AstView::Add { a, b, c } => {},
        AstView::Subtract { a, b, c } => {},
        AstView::Multiply { a, b, c } => {},
        AstView::Divide { a, b, c } => {},
        AstView::Yeet { a, b, c } => {},
        AstView::Exit { code } => {},
        AstView::LabelDefenition(..) => {},
        AstView::Jump { a } => {},
        AstView::Copy { a, b } => {},
        AstView::Equal { a, b, c } => {},
        AstView::NotEqual { a, b, c } => {},
        AstView::JumpIfHigherThan { a, b, c } => {},
    }
}


/// Across a run, earlier errors and code are stable, every error added
/// between steps `i` and `j` carries a line in `[i, j)`, and established
/// variables keep their addresses.
proof fn lemma_run_shape(l: Seq<AstView>, labels: Map<Seq<char>, int>, i: int, j: int)
    requires
        0 <= i <= j <= l.len(),
    ensures
        ({
            let si = state_at(l, labels, i);
            let sj = state_at(l, labels, j);
            &&& si.errs.len() <= sj.errs.len()
            &&& forall|k: int| 0 <= k < si.errs.len() ==> sj.errs[k] == si.errs[k]
            &&& forall|k: int|
                si.errs.len() <= k < sj.errs.len() ==> i <= #[trigger] sj.errs[k].instruction_num
                    < j
            &&& si.code.len() <= sj.code.len()
            &&& forall|k: int| 0 <= k < si.code.len() ==> sj.code[k] == si.code[k]
            &&& forall|n: Seq<char>|
                si.vars.contains_key(n) ==> #[trigger] sj.vars.contains_key(n) && sj.vars[n]
                    == si.vars[n]
        }),
    decreases j - i,
{
    if i < j {
        lemma_run_shape(l, labels, i, j - 1);
        lemma_step_shape(state_at(l, labels, j - 1), l[j - 1], j - 1, labels);
    }
}

/// The variable table's domain after `i` steps is exactly the set of names
/// defined before index `i`.
proof fn lemma_vars_dom(l: Seq<AstView>, labels: Map<Seq<char>, int>, i: int)
    requires
        0 <= i <= l.len(),
    ensures
        forall|n: Seq<char>|
            #[trigger] state_at(l, labels, i).vars.contains_key(n) <==> defined_before(l, i, n),
    decreases i,
{
    if i == 0 {
        assert forall|n: Seq<char>| !defined_before(l, 0, n) by {
            if defined_before(l, 0, n) {
                let k = choose|k: int|
                    0 <= k < 0 && (#[trigger] l[k] matches AstView::Define { name, .. } && name
                        == n);
            }
        }
    } else {
        lemma_vars_dom(l, labels, i - 1);
        lemma_step_shape(state_at(l, labels, i - 1), l[i - 1], i - 1, labels);
        assert forall|n: Seq<char>|
            #[trigger] state_at(l, labels, i).vars.contains_key(n) <==> defined_before(
                l,
                i,
                n,
            ) by {
            if state_at(l, labels, i).vars.contains_key(n) {
                if state_at(l, labels, i - 1).vars.contains_key(n) {
                    let k = choose|k: int|
                        0 <= k < i - 1 && (#[trigger] l[k] matches AstView::Define { name, .. }
                            && name == n);
                    assert(0 <= k < i && (l[k] matches AstView::Define { name, .. } && name == n));
                } else {
                    assert(l[i - 1] matches AstView::Define { name, .. } && name == n);
                }
            }
            if defined_before(l, i, n) {
                let k = choose|k: int|
                    0 <= k < i && (#[trigger] l[k] matches AstView::Define { name, .. } && name
                        == n);
                if k < i - 1 {
                    assert(defined_before(l, i - 1, n));
                }
            }
        }
    }
}

/// An error-free run is clean at every step, and what it has emitted after
/// `i` steps is exactly what the offset pre-pass counts for the first `i`
/// abstract instructions.
proof fn lemma_clean_run(l: Seq<AstView>, labels: Map<Seq<char>, int>, i: int)
    requires
        0 <= i <= l.len(),
        state_at(l, labels, l.len() as int).errs.len() == 0,
    ensures
        state_at(l, labels, i).errs.len() == 0,
        state_at(l, labels, i).code.len() == emitted_before(l, i),
    decreases i,
{
    lemma_run_shape(l, labels, i, l.len() as int);
    if i > 0 {
        lemma_clean_run(l, labels, i - 1);
        lemma_step_shape(state_at(l, labels, i - 1), l[i - 1], i - 1, labels);
    }
}

/// The offset pre-pass and the generator agree: an error-free run emits
/// exactly the number of concrete instructions the pre-pass counted, so
/// variable storage begins right after the emitted code.
pub proof fn lemma_prepass_matches_emission(l: Seq<AstView>)
    ensures
        gen(l).errs.len() == 0 ==> gen(l).code.len() == total_expansion(l),
{
    lemma_gen_is_state_at(l);
    if gen(l).errs.len() == 0 {
        lemma_clean_run(l, label_table(l), l.len() as int);
    }
}

// ---------------------------------------------------------------------------
// The label table
// ---------------------------------------------------------------------------

proof fn lemma_label_table_rec_dom(l: Seq<AstView>, i: int, cnt: int, m: Map<Seq<char>, int>)
    requires
        0 <= i <= l.len(),
    ensures
        forall|n: Seq<char>|
            #[trigger] label_table_rec(l, i, cnt, m).contains_key(n) <==> (m.contains_key(n)
                || exists|k: int|
                i <= k < l.len() && (#[trigger] l[k] matches AstView::LabelDefenition(nm) && nm
                    == n)),
    decreases l.len() - i,
{
    if i < l.len() {
        match l[i] {
            AstView::LabelDefenition(nm0) => {
                let m2 = m.insert(nm0, (cnt + 1) * 4);
                lemma_label_table_rec_dom(l, i + 1, cnt, m2);
                assert forall|n: Seq<char>|
                    #[trigger] label_table_rec(l, i, cnt, m).contains_key(n) <==> (
                    m.contains_key(n) || exists|k: int|
                        i <= k < l.len() && (#[trigger] l[k] matches AstView::LabelDefenition(nm)
                            && nm == n)) by {
                    assert(label_table_rec(l, i, cnt, m).contains_key(n)
                        == label_table_rec(l, i + 1, cnt, m2).contains_key(n));
                    if label_table_rec(l, i + 1, cnt, m2).contains_key(n) {
                        if m2.contains_key(n) && !m.contains_key(n) {
                            assert(l[i] matches AstView::LabelDefenition(nm) && nm == n);
                        } else if !m2.contains_key(n) {
                            let k = choose|k: int|
                                i + 1 <= k < l.len() && (#[trigger] l[k] matches
                                AstView::LabelDefenition(nm) && nm == n);
                            assert(i <= k < l.len() && (l[k] matches AstView::LabelDefenition(nm)
                                && nm == n));
                        }
                    }
                    if m.contains_key(n) {
                        assert(m2.contains_key(n));
                    }
                    if exists|k: int|
                        i <= k < l.len() && (#[trigger] l[k] matches AstView::LabelDefenition(nm)
                            && nm == n) {
                        let k = choose|k: int|
                            i <= k < l.len() && (#[trigger] l[k] matches
                            AstView::LabelDefenition(nm) && nm == n);
                        if k == i {
                            assert(m2.contains_key(n));
                        } else {
                            assert(exists|k2: int|
                                i + 1 <= k2 < l.len() && (#[trigger] l[k2] matches
                                AstView::LabelDefenition(nm) && nm == n));
                        }
                    }
                }
            },
            t => {
                lemma_label_table_rec_dom(l, i + 1, cnt + expansion_len(t), m);
                assert forall|n: Seq<char>|
                    #[trigger] label_table_rec(l, i, cnt, m).contains_key(n) <==> (
                    m.contains_key(n) || exists|k: int|
                        i <= k < l.len() && (#[trigger] l[k] matches AstView::LabelDefenition(nm)
                            && nm == n)) by {
                    assert(label_table_rec(l, i, cnt, m).contains_key(n) == label_table_rec(
                        l,
                        i + 1,
                        cnt + expansion_len(t),
                        m,
                    ).contains_key(n));
                    if label_table_rec(l, i + 1, cnt + expansion_len(t), m).contains_key(n)
                        && !m.contains_key(n) {
                        let k = choose|k: int|
                            i + 1 <= k < l.len() && (#[trigger] l[k] matches
                            AstView::LabelDefenition(nm) && nm == n);
                        assert(i <= k < l.len() && (l[k] matches AstView::LabelDefenition(nm)
                            && nm == n));
                    }
                    if exists|k: int|
                        i <= k < l.len() && (#[trigger] l[k] matches AstView::LabelDefenition(nm)
                            && nm == n) {
                        let k = choose|k: int|
                            i <= k < l.len() && (#[trigger] l[k] matches
                            AstView::LabelDefenition(nm) && nm == n);
                        assert(k != i);
                        assert(exists|k2: int|
                            i + 1 <= k2 < l.len() && (#[trigger] l[k2] matches
                            AstView::LabelDefenition(nm) && nm == n));
                    }
                }
            },
        }
    }
}

/// A label resolves if and only if it is defined somewhere in the source.
pub proof fn lemma_label_table_dom(l: Seq<AstView>)
    ensures
        forall|n: Seq<char>| #[trigger] label_table(l).contains_key(n) <==> label_defined(l, n),
{
    lemma_label_table_rec_dom(l, 0, 0, Map::empty());
}

proof fn lemma_label_table_rec_absent(
    l: Seq<AstView>,
    i: int,
    cnt: int,
    m: Map<Seq<char>, int>,
    n: Seq<char>,
)
    requires
        0 <= i <= l.len(),
        forall|k: int|
            i <= k < l.len() ==> !(#[trigger] l[k] matches AstView::LabelDefenition(nm) && nm
                == n),
    ensures
        label_table_rec(l, i, cnt, m).contains_key(n) == m.contains_key(n),
        m.contains_key(n) ==> label_table_rec(l, i, cnt, m)[n] == m[n],
    decreases l.len() - i,
{
    if i < l.len() {
        match l[i] {
            AstView::LabelDefenition(nm0) => {
                assert(!(l[i] matches AstView::LabelDefenition(nm) && nm == n));
                lemma_label_table_rec_absent(l, i + 1, cnt, m.insert(nm0, (cnt + 1) * 4), n);
            },
            t => {
                lemma_label_table_rec_absent(l, i + 1, cnt + expansion_len(t), m, n);
            },
        }
    }
}

proof fn lemma_label_table_rec_value(
    l: Seq<AstView>,
    i: int,
    cnt: int,
    m: Map<Seq<char>, int>,
    j: int,
    n: Seq<char>,
)
    requires
        0 <= i <= j < l.len(),
        l[j] == AstView::LabelDefenition(n),
        forall|k: int|
            j < k < l.len() ==> !(#[trigger] l[k] matches AstView::LabelDefenition(nm) && nm
                == n),
    ensures
        label_table_rec(l, i, cnt, m).contains_key(n),
        label_table_rec(l, i, cnt, m)[n] == (cnt + emitted_before(l, j) - emitted_before(l, i)
            + 1) * 4,
    decreases j - i,
{
    if i == j {
        lemma_label_table_rec_absent(l, i + 1, cnt, m.insert(n, (cnt + 1) * 4), n);
    } else {
        match l[i] {
            AstView::LabelDefenition(nm0) => {
                lemma_label_table_rec_value(l, i + 1, cnt, m.insert(nm0, (cnt + 1) * 4), j, n);
            },
            t => {
                lemma_label_table_rec_value(l, i + 1, cnt + expansion_len(t), m, j, n);
            },
        }
    }
}


// ---------------------------------------------------------------------------
// The laws of generation
// ---------------------------------------------------------------------------

/// Label reference, forward or backward: a `JMP` to a label defined (last)
/// at index `j` resolves to the address recorded at that definition —
/// `(instructions emitted before it + 1) * 4`, the address of the first
/// instruction emitted after the marker — however many instructions stand
/// between the jump and the definition. In an error-free run the emitted
/// jump instruction carries exactly that address.
pub proof fn lemma_label_reference_address(l: Seq<AstView>, i: int, j: int, n: Seq<char>)
    requires
        0 <= i < l.len(),
        0 <= j < l.len(),
        l[i] == (AstView::Jump { a: n }),
        l[j] == AstView::LabelDefenition(n),
        forall|k: int|
            j < k < l.len() ==> !(#[trigger] l[k] matches AstView::LabelDefenition(nm) && nm
                == n),
    ensures
        label_table(l).contains_key(n),
        label_table(l)[n] == (emitted_before(l, j) + 1) * 4,
        gen(l).errs.len() == 0 ==> emitted_before(l, i) < gen(l).code.len() && gen(l).code[
            emitted_before(l, i)
        ] == (RawInstructions::JMP { a: (((emitted_before(l, j) + 1) * 4) as u64) }),
{
    lemma_label_table_rec_value(l, 0, 0, Map::empty(), j, n);
    lemma_gen_is_state_at(l);
    let labels = label_table(l);
    if gen(l).errs.len() == 0 {
        lemma_clean_run(l, labels, i);
        lemma_clean_run(l, labels, i + 1);
        lemma_clean_run(l, labels, l.len() as int);
        let si = state_at(l, labels, i);
        assert(state_at(l, labels, i + 1) == gen_step(si, l[i], i, labels));
        assert(state_at(l, labels, i + 1).code[emitted_before(l, i)] == (RawInstructions::JMP {
            a: labels[n] as u64,
        }));
        lemma_run_shape(l, labels, i + 1, l.len() as int);
        crate::code_gen::lemma_emitted_before_bounds(l, l.len() as int);
    }
}

/// The list holds only `DEF`, `ADD` and `EXIT` instructions.
pub open spec fn only_def_add_exit(l: Seq<AstView>) -> bool {
    forall|k: int|
        0 <= k < l.len() ==> ((#[trigger] l[k]) matches AstView::Define { .. } || l[k] matches
        AstView::Add { .. } || l[k] matches AstView::Exit { .. })
}

/// The operands of the instruction at `k` are defined before it.
pub open spec fn instr_operands_defined(l: Seq<AstView>, k: int) -> bool {
    match l[k] {
        AstView::Add { a, b, c } => defined_before(l, k, a) && defined_before(l, k, b)
            && defined_before(l, k, c),
        AstView::Exit { code } => defined_before(l, k, code),
        _ => true,
    }
}

/// Every variable operand is defined before the instruction that uses it.
pub open spec fn operands_defined(l: Seq<AstView>) -> bool {
    forall|k: int| 0 <= k < l.len() ==> #[trigger] instr_operands_defined(l, k)
}

proof fn lemma_def_add_exit_clean(l: Seq<AstView>, labels: Map<Seq<char>, int>, i: int)
    requires
        only_def_add_exit(l),
        operands_defined(l),
        0 <= i <= l.len(),
    ensures
        state_at(l, labels, i).errs.len() == 0,
    decreases i,
{
    if i > 0 {
        lemma_def_add_exit_clean(l, labels, i - 1);
        lemma_vars_dom(l, labels, i - 1);
        assert(instr_operands_defined(l, i - 1));
        let s = state_at(l, labels, i - 1);
        match l[i - 1] {
            AstView::Add { a, b, c } => {
                assert(defined_before(l, i - 1, a) && defined_before(l, i - 1, b)
                    && defined_before(l, i - 1, c));
                assert(missing_var_errs(s.vars, i - 1, a, b, c) =~= Seq::<
                    crate::code_gen::CodeGenerationErrorView,
                >::empty());
            },
            AstView::Exit { code } => {
                assert(defined_before(l, i - 1, code));
            },
            _ => {},
        }
    }
}

/// A source program of only `DEF`, `ADD` and `EXIT` whose variables are
/// defined before use generates successfully, and each `EXIT` is emitted at
/// its pre-pass position carrying exactly the storage address the run
/// assigned to its variable.
pub proof fn lemma_def_add_exit_generation(l: Seq<AstView>)
    requires
        only_def_add_exit(l),
        operands_defined(l),
    ensures
        gen(l).errs.len() == 0,
        gen(l).code.len() == total_expansion(l),
        forall|k: int|
            0 <= k < l.len() ==> ((#[trigger] l[k]) matches AstView::Exit { code }
                ==> gen(l).vars.contains_key(code) && gen(l).code[emitted_before(l, k)] == (
            RawInstructions::EXIT { a: gen(l).vars[code] as u64 })),
{
    let labels = label_table(l);
    lemma_gen_is_state_at(l);
    lemma_def_add_exit_clean(l, labels, l.len() as int);
    lemma_clean_run(l, labels, l.len() as int);
    assert forall|k: int|
        0 <= k < l.len() && ((#[trigger] l[k]) matches AstView::Exit { .. }) implies (l[k] matches
    AstView::Exit { code } ==> gen(l).vars.contains_key(code) && gen(l).code[emitted_before(l, k)]
        == (RawInstructions::EXIT { a: gen(l).vars[code] as u64 })) by {
        match l[k] {
            AstView::Exit { code } => {
                lemma_clean_run(l, labels, k);
                lemma_clean_run(l, labels, k + 1);
                lemma_vars_dom(l, labels, k);
                assert(instr_operands_defined(l, k));
                assert(defined_before(l, k, code));
                let sk = state_at(l, labels, k);
                assert(state_at(l, labels, k + 1) == gen_step(sk, l[k], k, labels));
                assert(state_at(l, labels, k + 1).code[emitted_before(l, k)] == (
                RawInstructions::EXIT { a: sk.vars[code] as u64 }));
                lemma_run_shape(l, labels, k + 1, l.len() as int);
            },
            _ => {},
        }
    }
}

/// The three operand names of an arithmetic operator (or of the outward
/// port's operator, which resolves its operands the same way).
pub open spec fn arith_operands(t: AstView) -> Option<(Seq<char>, Seq<char>, Seq<char>)> {
    match t {
        AstView::Add { a, b, c } => Some((a, b, c)),
        AstView::Subtract { a, b, c } => Some((a, b, c)),
        AstView::Multiply { a, b, c } => Some((a, b, c)),
        AstView::Divide { a, b, c } => Some((a, b, c)),
        AstView::Yeet { a, b, c } => Some((a, b, c)),
        _ => None,
    }
}

/// Referencing one undefined variable in any arithmetic operator yields
/// exactly one `VariableDoesntExist` error, carrying that instruction's
/// index and the missing name, and generation as a whole fails.
pub proof fn lemma_undefined_variable_error(
    l: Seq<AstView>,
    i: int,
    a: Seq<char>,
    b: Seq<char>,
    c: Seq<char>,
    x: Seq<char>,
)
    requires
        0 <= i < l.len(),
        arith_operands(l[i]) == Some((a, b, c)),
        !defined_before(l, i, x),
        (x == a && defined_before(l, i, b) && defined_before(l, i, c)) || (x == b
            && defined_before(l, i, a) && defined_before(l, i, c)) || (x == c
            && defined_before(l, i, a) && defined_before(l, i, b)),
    ensures
        gen(l).errs.len() > 0,
        exists|k: int| 0 <= k < gen(l).errs.len() && #[trigger] gen(l).errs[k] == var_err(i, x),
        forall|k1: int, k2: int|
            0 <= k1 < gen(l).errs.len() && 0 <= k2 < gen(l).errs.len() && #[trigger] gen(
                l,
            ).errs[k1].instruction_num == i && #[trigger] gen(l).errs[k2].instruction_num == i
                ==> k1 == k2,
{
    let labels = label_table(l);
    lemma_gen_is_state_at(l);
    lemma_vars_dom(l, labels, i);
    let si = state_at(l, labels, i);
    let es = missing_var_errs(si.vars, i, a, b, c);
    assert(es =~= seq![var_err(i, x)]);
    assert(state_at(l, labels, i + 1) == gen_step(si, l[i], i, labels));
    assert(state_at(l, labels, i + 1).errs =~= si.errs + es);
    lemma_run_shape(l, labels, 0, i);
    lemma_run_shape(l, labels, i + 1, l.len() as int);
    let lo = si.errs.len() as int;
    assert(gen(l).errs[lo] == var_err(i, x));
    assert forall|k1: int, k2: int|
        0 <= k1 < gen(l).errs.len() && 0 <= k2 < gen(l).errs.len() && #[trigger] gen(
            l,
        ).errs[k1].instruction_num == i && #[trigger] gen(l).errs[k2].instruction_num == i implies k1
        == k2 by {
        assert forall|k: int|
            0 <= k < gen(l).errs.len() && #[trigger] gen(l).errs[k].instruction_num == i implies k
            == lo by {
            if k < lo {
                assert(gen(l).errs[k] == si.errs[k]);
                assert(gen(l).errs[k].instruction_num < i);
            }
            if k > lo {
                assert(gen(l).errs[k].instruction_num >= i + 1);
            }
        }
    }
}

/// The label a jump or conditional jump references.
pub open spec fn label_operand(t: AstView) -> Option<Seq<char>> {
    match t {
        AstView::Jump { a } => Some(a),
        AstView::Equal { c, .. } => Some(c),
        AstView::NotEqual { c, .. } => Some(c),
        AstView::JumpIfHigherThan { c, .. } => Some(c),
        _ => None,
    }
}

/// Referencing a label defined nowhere in the source, from `JMP` or from a
/// conditional jump whose variable operands resolve, yields exactly one
/// `LabelDoesntExist` error, carrying that instruction's index and the
/// missing name, and generation as a whole fails.
pub proof fn lemma_undefined_label_error(l: Seq<AstView>, i: int, n: Seq<char>)
    requires
        0 <= i < l.len(),
        label_operand(l[i]) == Some(n),
        !label_defined(l, n),
        (l[i] matches AstView::Equal { a, b, .. } ==> defined_before(l, i, a) && defined_before(
            l,
            i,
            b,
        )),
        (l[i] matches AstView::NotEqual { a, b, .. } ==> defined_before(l, i, a)
            && defined_before(l, i, b)),
        (l[i] matches AstView::JumpIfHigherThan { a, b, .. } ==> defined_before(l, i, a)
            && defined_before(l, i, b)),
    ensures
        gen(l).errs.len() > 0,
        exists|k: int| 0 <= k < gen(l).errs.len() && #[trigger] gen(l).errs[k] == label_err(i, n),
        forall|k1: int, k2: int|
            0 <= k1 < gen(l).errs.len() && 0 <= k2 < gen(l).errs.len() && #[trigger] gen(
                l,
            ).errs[k1].instruction_num == i && #[trigger] gen(l).errs[k2].instruction_num == i
                ==> k1 == k2,
{
    let labels = label_table(l);
    lemma_gen_is_state_at(l);
    lemma_vars_dom(l, labels, i);
    assert forall|k: int|
        0 <= k < l.len() implies !(#[trigger] l[k] matches AstView::LabelDefenition(nm) && nm
        == n) by {
        if l[k] matches AstView::LabelDefenition(nm) && nm == n {
            assert(label_defined(l, n));
        }
    }
    lemma_label_table_rec_absent(l, 0, 0, Map::empty(), n);
    assert(!labels.contains_key(n));
    let si = state_at(l, labels, i);
    assert(state_at(l, labels, i + 1) == gen_step(si, l[i], i, labels));
    match l[i] {
        AstView::Jump { .. } => {
            assert(state_at(l, labels, i + 1).errs =~= si.errs + seq![label_err(i, n)]);
        },
        AstView::Equal { a, b, .. } => {
            assert(state_at(l, labels, i + 1).errs =~= si.errs + seq![label_err(i, n)]);
        },
        AstView::NotEqual { a, b, .. } => {
            assert(state_at(l, labels, i + 1).errs =~= si.errs + seq![label_err(i, n)]);
        },
        AstView::JumpIfHigherThan { a, b, .. } => {
            assert(state_at(l, labels, i + 1).errs =~= si.errs + seq![label_err(i, n)]);
        },
        _ => {},
    }
    lemma_run_shape(l, labels, 0, i);
    lemma_run_shape(l, labels, i + 1, l.len() as int);
    let lo = si.errs.len() as int;
    assert(gen(l).errs[lo] == label_err(i, n));
    assert forall|k1: int, k2: int|
        0 <= k1 < gen(l).errs.len() && 0 <= k2 < gen(l).errs.len() && #[trigger] gen(
            l,
        ).errs[k1].instruction_num == i && #[trigger] gen(l).errs[k2].instruction_num == i implies k1
        == k2 by {
        assert forall|k: int|
            0 <= k < gen(l).errs.len() && #[trigger] gen(l).errs[k].instruction_num == i implies k
            == lo by {
            if k < lo {
                assert(gen(l).errs[k] == si.errs[k]);
                assert(gen(l).errs[k].instruction_num < i);
            }
            if k > lo {
                assert(gen(l).errs[k].instruction_num >= i + 1);
            }
        }
    }
}

/// Variable allocation is idempotent: re-defining an already-defined name
/// keeps it at its original storage address, allocates nothing new, and the
/// whole run resolves the name to that same address.
pub proof fn lemma_redefinition_reuses_address(l: Seq<AstView>, i: int, j: int, n: Seq<char>)
    requires
        0 <= i < j < l.len(),
        (l[i] matches AstView::Define { name, .. } && name == n),
        (l[j] matches AstView::Define { name, .. } && name == n),
    ensures
        ({
            let labels = label_table(l);
            &&& state_at(l, labels, i + 1).vars.contains_key(n)
            &&& state_at(l, labels, j + 1).vars[n] == state_at(l, labels, i + 1).vars[n]
            &&& state_at(l, labels, j + 1).next == state_at(l, labels, j).next
            &&& gen(l).vars.contains_key(n)
            &&& gen(l).vars[n] == state_at(l, labels, i + 1).vars[n]
        }),
{
    let labels = label_table(l);
    lemma_gen_is_state_at(l);
    lemma_vars_dom(l, labels, i + 1);
    assert(defined_before(l, i + 1, n));
    lemma_vars_dom(l, labels, j);
    assert(defined_before(l, j, n));
    assert(state_at(l, labels, j + 1) == gen_step(state_at(l, labels, j), l[j], j, labels));
    lemma_step_shape(state_at(l, labels, j), l[j], j, labels);
    lemma_run_shape(l, labels, i + 1, j);
    lemma_run_shape(l, labels, i + 1, j + 1);
    lemma_run_shape(l, labels, i + 1, l.len() as int);
}

} // verus!\n