//! The agreement between the two syntheses of one circuit. Setup records, per
//! variable, the `(coefficient, constraint)` entries of the A and B
//! polynomials; the prover records, per constraint, the values of the A and B
//! combinations under the assignment. Groth16 needs these to be the same
//! matrix read two ways: row `j` of A (or B) applied to the assignment is the
//! prover's `j`-th evaluation. Every synthesis operation keeps this; and once
//! the input consistency constraints are in, the prover's `A·z` and `B·z`
//! are those rows, so the key's A and B queries, evaluated at tau and dotted
//! with the assignment, give the witness's A and B polynomials at tau.
use vstd::prelude::*;

use crate::constraint::{lc_value, lc_wf, var_value, Index};
use crate::field::{fr_modulus, fr_one, Fr};
use crate::prove::{padded, zeros, ProvingAssignment};
use crate::setup::{
    entries_wf, finished_inputs, lists, qap_eval, recorded, term_target, total_constraints, values,
    var_evals, KeypairAssembly,
};

verus! {

/// The coefficient that a variable's entries give constraint `j`: the sum of
/// the coefficients recorded for `j`.
pub open spec fn coeff_at(p: Seq<(Fr, usize)>, j: nat) -> int
    decreases p.len(),
{
    if p.len() == 0 {
        0
    } else {
        coeff_at(p.drop_last(), j) + if p.last().1 == j {
            p.last().0@ as int
        } else {
            0
        }
    }
}

/// `Σ_{v < k} value(v) · coeff_at(entries(v), j)`, over the integers.
pub open spec fn column(ls: Seq<Seq<(Fr, usize)>>, vals: Seq<Fr>, j: nat, k: nat) -> int
    decreases k,
{
    if k == 0 {
        0
    } else {
        column(ls, vals, j, (k - 1) as nat) + vals[k - 1]@ * coeff_at(ls[k - 1], j)
    }
}

/// Row `j` of a QAP matrix, given per variable for the inputs and the aux
/// variables, applied to the assignment, in the scalar field.
pub open spec fn row_value(
    ins_ls: Seq<Seq<(Fr, usize)>>,
    aux_ls: Seq<Seq<(Fr, usize)>>,
    ins: Seq<Fr>,
    aux: Seq<Fr>,
    j: nat,
) -> nat {
    ((column(ins_ls, ins, j, ins.len()) + column(aux_ls, aux, j, aux.len())) % (fr_modulus() as int)) as nat
}

/// The two syntheses agree: the same variables and constraints, and every
/// A and B evaluation of the prover is the corresponding row of setup's
/// matrix applied to the assignment.
pub open spec fn synthesis_agrees(cs: KeypairAssembly, p: ProvingAssignment) -> bool {
    let (ins, aux) = (p.input_assignment@, p.aux_assignment@);
    &&& cs.wf()
    &&& p.wf()
    &&& cs.num_inputs == ins.len()
    &&& cs.num_aux == aux.len()
    &&& cs.num_constraints == p.a@.len()
    &&& forall|j: int|
        0 <= j < p.a@.len() ==> (#[trigger] p.a@[j])@ == row_value(
            lists(cs.at_inputs@),
            lists(cs.at_aux@),
            ins,
            aux,
            j as nat,
        )
    &&& forall|j: int|
        0 <= j < p.b@.len() ==> (#[trigger] p.b@[j])@ == row_value(
            lists(cs.bt_inputs@),
            lists(cs.bt_aux@),
            ins,
            aux,
            j as nat,
        )
}

/// `cs1` is `cs0` after allocating an input (as `KeypairAssembly::alloc_input`
/// leaves it).
pub open spec fn setup_allocated_input(cs0: KeypairAssembly, cs1: KeypairAssembly) -> bool {
    &&& cs1.wf()
    &&& cs1.num_inputs == cs0.num_inputs + 1
    &&& cs1.num_aux == cs0.num_aux
    &&& cs1.num_constraints == cs0.num_constraints
    &&& cs1.at_aux@ == cs0.at_aux@
    &&& cs1.bt_aux@ == cs0.bt_aux@
    &&& lists(cs1.at_inputs@) == lists(cs0.at_inputs@).push(Seq::empty())
    &&& lists(cs1.bt_inputs@) == lists(cs0.bt_inputs@).push(Seq::empty())
}

/// `cs1` is `cs0` after allocating an aux variable.
pub open spec fn setup_allocated_aux(cs0: KeypairAssembly, cs1: KeypairAssembly) -> bool {
    &&& cs1.wf()
    &&& cs1.num_aux == cs0.num_aux + 1
    &&& cs1.num_inputs == cs0.num_inputs
    &&& cs1.num_constraints == cs0.num_constraints
    &&& cs1.at_inputs@ == cs0.at_inputs@
    &&& cs1.bt_inputs@ == cs0.bt_inputs@
    &&& lists(cs1.at_aux@) == lists(cs0.at_aux@).push(Seq::empty())
    &&& lists(cs1.bt_aux@) == lists(cs0.bt_aux@).push(Seq::empty())
}

/// `cs1` is `cs0` after enforcing a constraint with the A and B combinations
/// `a` and `b` (the C side is of no concern to the prover).
pub open spec fn setup_enforced(
    cs0: KeypairAssembly,
    cs1: KeypairAssembly,
    a: Seq<(Index, Fr)>,
    b: Seq<(Index, Fr)>,
) -> bool {
    &&& cs1.wf()
    &&& cs1.num_inputs == cs0.num_inputs
    &&& cs1.num_aux == cs0.num_aux
    &&& cs1.num_constraints == cs0.num_constraints + 1
    &&& lists(cs1.at_inputs@) == recorded(lists(cs0.at_inputs@), a, true, cs0.num_constraints)
    &&& lists(cs1.at_aux@) == recorded(lists(cs0.at_aux@), a, false, cs0.num_constraints)
    &&& lists(cs1.bt_inputs@) == recorded(lists(cs0.bt_inputs@), b, true, cs0.num_constraints)
    &&& lists(cs1.bt_aux@) == recorded(lists(cs0.bt_aux@), b, false, cs0.num_constraints)
}

/// `p1` is `p0` after allocating an input with value `v`.
pub open spec fn prover_allocated_input(p0: ProvingAssignment, p1: ProvingAssignment, v: Fr) -> bool {
    &&& p1.wf()
    &&& p1.input_assignment@ == p0.input_assignment@.push(v)
    &&& p1.aux_assignment@ == p0.aux_assignment@
    &&& p1.a@ == p0.a@
    &&& p1.b@ == p0.b@
}

/// `p1` is `p0` after allocating an aux variable with value `v`.
pub open spec fn prover_allocated_aux(p0: ProvingAssignment, p1: ProvingAssignment, v: Fr) -> bool {
    &&& p1.wf()
    &&& p1.aux_assignment@ == p0.aux_assignment@.push(v)
    &&& p1.input_assignment@ == p0.input_assignment@
    &&& p1.a@ == p0.a@
    &&& p1.b@ == p0.b@
}

/// `p1` is `p0` after enforcing a constraint with the A and B combinations
/// `a` and `b`.
pub open spec fn prover_enforced(
    p0: ProvingAssignment,
    p1: ProvingAssignment,
    a: Seq<(Index, Fr)>,
    b: Seq<(Index, Fr)>,
) -> bool {
    let (ins, aux) = (p0.input_assignment@, p0.aux_assignment@);
    &&& p1.wf()
    &&& p1.input_assignment@ == ins
    &&& p1.aux_assignment@ == aux
    &&& values(p1.a@) == values(p0.a@).push(lc_value(a, ins, aux))
    &&& values(p1.b@) == values(p0.b@).push(lc_value(b, ins, aux))
}

/// A list whose entries all name constraints below `n` gives `n` nothing.
proof fn lemma_coeff_at_beyond(p: Seq<(Fr, usize)>, n: nat)
    requires
        forall|k: int| 0 <= k < p.len() ==> (#[trigger] p[k]).1 < n,
    ensures
        coeff_at(p, n) == 0,
    decreases p.len(),
{
    if p.len() > 0 {
        lemma_coeff_at_beyond(p.drop_last(), n);
    }
}

/// Appending an entry adds its coefficient to its own constraint only.
proof fn lemma_coeff_at_push(p: Seq<(Fr, usize)>, e: (Fr, usize), j: nat)
    ensures
        coeff_at(p.push(e), j) == coeff_at(p, j) + if e.1 == j {
            e.0@ as int
        } else {
            0
        },
{
    assert(p.push(e).drop_last() =~= p);
}

/// A column depends on the first `k` variables only.
proof fn lemma_column_prefix(ls: Seq<Seq<(Fr, usize)>>, vals: Seq<Fr>, ls2: Seq<Seq<(Fr, usize)>>, vals2: Seq<Fr>, j: nat, k: nat)
    requires
        k <= ls.len() && k <= ls2.len() && k <= vals.len() && k <= vals2.len(),
        forall|i: int| 0 <= i < k ==> ls[i] == ls2[i] && vals[i] == vals2[i],
    ensures
        column(ls, vals, j, k) == column(ls2, vals2, j, k),
    decreases k,
{
    if k > 0 {
        lemma_column_prefix(ls, vals, ls2, vals2, j, (k - 1) as nat);
    }
}

/// A column of lists whose entries all name constraints below `n` is zero
/// at `n`.
proof fn lemma_column_beyond(ls: Seq<Seq<(Fr, usize)>>, vals: Seq<Fr>, n: nat, k: nat)
    requires
        k <= ls.len(),
        entries_wf(ls, n),
    ensures
        column(ls, vals, n, k) == 0,
    decreases k,
{
    if k > 0 {
        lemma_column_beyond(ls, vals, n, (k - 1) as nat);
        let l = ls[k - 1];
        assert forall|m: int| 0 <= m < l.len() implies (#[trigger] l[m]).1 < n by {
            assert(ls[k - 1][m] == l[m]);
        }
        lemma_coeff_at_beyond(l, n);
    }
}

/// Recording `(c, n)` for variable `i` adds `value(i) · c` to column `n`
/// and leaves every other column as it was.
proof fn lemma_column_update(ls: Seq<Seq<(Fr, usize)>>, vals: Seq<Fr>, i: int, c: Fr, n: usize, j: nat, k: nat)
    requires
        0 <= i < ls.len(),
        k <= ls.len(),
        k <= vals.len(),
    ensures
        column(ls.update(i, ls[i].push((c, n))), vals, j, k) == column(ls, vals, j, k) + if i < k && j == n {
            vals[i]@ * c@
        } else {
            0
        },
    decreases k,
{
    if k > 0 {
        let ls2 = ls.update(i, ls[i].push((c, n)));
        lemma_column_update(ls, vals, i, c, n, j, (k - 1) as nat);
        if k - 1 == i {
            lemma_coeff_at_push(ls[i], (c, n), j);
            let v = vals[i]@ as int;
            let a = coeff_at(ls[i], j);
            let d = if n == j { c@ as int } else { 0 };
            assert(v * (a + d) == v * a + v * d) by (nonlinear_arith);
        }
    }
}

/// `Σ coeff · value(var)` over the terms, over the integers.
pub open spec fn term_sum(t: Seq<(Index, Fr)>, ins: Seq<Fr>, aux: Seq<Fr>) -> int
    decreases t.len(),
{
    if t.len() == 0 {
        0
    } else {
        term_sum(t.drop_last(), ins, aux) + t.last().1@ * var_value(t.last().0, ins, aux)
    }
}

/// The value of a combination is its integer sum, reduced.
proof fn lemma_lc_value_sum(t: Seq<(Index, Fr)>, ins: Seq<Fr>, aux: Seq<Fr>)
    ensures
        lc_value(t, ins, aux) as int == term_sum(t, ins, aux) % (fr_modulus() as int),
    decreases t.len(),
{
    if t.len() > 0 {
        lemma_lc_value_sum(t.drop_last(), ins, aux);
        let (v, c) = t.last();
        let y = (c@ * var_value(v, ins, aux)) as int;
        let s = term_sum(t.drop_last(), ins, aux);
        vstd::arithmetic::div_mod::lemma_add_mod_noop_right(y, s, fr_modulus() as int);
    }
}

/// Recording the terms of a combination as constraint `n` adds, at column
/// `n`, the integer sum of the combination's terms on this side, and changes
/// no other column.
proof fn lemma_recorded_columns(
    ls_in: Seq<Seq<(Fr, usize)>>,
    ls_aux: Seq<Seq<(Fr, usize)>>,
    t: Seq<(Index, Fr)>,
    ins: Seq<Fr>,
    aux: Seq<Fr>,
    n: usize,
    j: nat,
)
    requires
        ls_in.len() == ins.len(),
        ls_aux.len() == aux.len(),
        lc_wf(t, ins.len(), aux.len()),
    ensures
        recorded(ls_in, t, true, n).len() == ls_in.len(),
        recorded(ls_aux, t, false, n).len() == ls_aux.len(),
        column(recorded(ls_in, t, true, n), ins, j, ins.len()) + column(recorded(ls_aux, t, false, n), aux, j, aux.len())
            == column(ls_in, ins, j, ins.len()) + column(ls_aux, aux, j, aux.len()) + if j == n {
            term_sum(t, ins, aux)
        } else {
            0
        },
    decreases t.len(),
{
    if t.len() > 0 {
        let t0 = t.drop_last();
        assert forall|k: int| 0 <= k < t0.len() implies {
            &&& (#[trigger] t0[k]).1.wf()
            &&& match t0[k].0 {
                Index::Input(i) => i < ins.len(),
                Index::Aux(i) => i < aux.len(),
            }
        } by {
            assert(t0[k] == t[k]);
        }
        lemma_recorded_columns(ls_in, ls_aux, t0, ins, aux, n, j);
        let (v, c) = t.last();
        assert(t.last() == t[t.len() - 1]);
        let pin = recorded(ls_in, t0, true, n);
        let paux = recorded(ls_aux, t0, false, n);
        match v {
            Index::Input(i) => {
                assert(term_target(v, true) == Some(i as nat));
                assert(term_target(v, false) == None::<nat>);
                lemma_column_update(pin, ins, i as int, c, n, j, ins.len());
            },
            Index::Aux(i) => {
                assert(term_target(v, true) == None::<nat>);
                assert(term_target(v, false) == Some(i as nat));
                lemma_column_update(paux, aux, i as int, c, n, j, aux.len());
            },
        }
        let x = c@ as int;
        let y = var_value(v, ins, aux) as int;
        assert(y * x == x * y) by (nonlinear_arith);
    }
}

/// Law: two syntheses with the same variables and no constraints yet agree;
/// in particular the fresh states that `KeypairAssembly::new` and
/// `ProvingAssignment::new` make.
pub proof fn lemma_fresh_syntheses_agree(cs: KeypairAssembly, p: ProvingAssignment)
    requires
        cs.wf(),
        p.wf(),
        cs.num_constraints == 0,
        p.a@.len() == 0,
        cs.num_inputs == p.input_assignment@.len(),
        cs.num_aux == p.aux_assignment@.len(),
    ensures
        synthesis_agrees(cs, p),
{
}

/// Law: allocating an input in both syntheses keeps them in agreement,
/// whatever the value.
pub proof fn lemma_alloc_input_keeps_agreement(
    cs0: KeypairAssembly,
    cs1: KeypairAssembly,
    p0: ProvingAssignment,
    p1: ProvingAssignment,
    v: Fr,
)
    requires
        synthesis_agrees(cs0, p0),
        setup_allocated_input(cs0, cs1),
        prover_allocated_input(p0, p1, v),
    ensures
        synthesis_agrees(cs1, p1),
{
    let (ins0, ins1) = (p0.input_assignment@, p1.input_assignment@);
    let aux = p0.aux_assignment@;
    let k = ins0.len();
    assert forall|j: int| 0 <= j < p1.a@.len() implies (#[trigger] p1.a@[j])@ == row_value(
        lists(cs1.at_inputs@), lists(cs1.at_aux@), ins1, aux, j as nat) by {
        lemma_column_prefix(lists(cs1.at_inputs@), ins1, lists(cs0.at_inputs@), ins0, j as nat, k);
        assert(lists(cs1.at_inputs@)[k as int] == Seq::<(Fr, usize)>::empty());
        assert(p1.a@[j] == p0.a@[j]);
    }
    assert forall|j: int| 0 <= j < p1.b@.len() implies (#[trigger] p1.b@[j])@ == row_value(
        lists(cs1.bt_inputs@), lists(cs1.bt_aux@), ins1, aux, j as nat) by {
        lemma_column_prefix(lists(cs1.bt_inputs@), ins1, lists(cs0.bt_inputs@), ins0, j as nat, k);
        assert(lists(cs1.bt_inputs@)[k as int] == Seq::<(Fr, usize)>::empty());
        assert(p1.b@[j] == p0.b@[j]);
    }
}

/// Law: allocating an aux variable in both syntheses keeps them in
/// agreement, whatever the value.
pub proof fn lemma_alloc_aux_keeps_agreement(
    cs0: KeypairAssembly,
    cs1: KeypairAssembly,
    p0: ProvingAssignment,
    p1: ProvingAssignment,
    v: Fr,
)
    requires
        synthesis_agrees(cs0, p0),
        setup_allocated_aux(cs0, cs1),
        prover_allocated_aux(p0, p1, v),
    ensures
        synthesis_agrees(cs1, p1),
{
    let (aux0, aux1) = (p0.aux_assignment@, p1.aux_assignment@);
    let ins = p0.input_assignment@;
    let k = aux0.len();
    assert forall|j: int| 0 <= j < p1.a@.len() implies (#[trigger] p1.a@[j])@ == row_value(
        lists(cs1.at_inputs@), lists(cs1.at_aux@), ins, aux1, j as nat) by {
        lemma_column_prefix(lists(cs1.at_aux@), aux1, lists(cs0.at_aux@), aux0, j as nat, k);
        assert(lists(cs1.at_aux@)[k as int] == Seq::<(Fr, usize)>::empty());
        assert(p1.a@[j] == p0.a@[j]);
    }
    assert forall|j: int| 0 <= j < p1.b@.len() implies (#[trigger] p1.b@[j])@ == row_value(
        lists(cs1.bt_inputs@), lists(cs1.bt_aux@), ins, aux1, j as nat) by {
        lemma_column_prefix(lists(cs1.bt_aux@), aux1, lists(cs0.bt_aux@), aux0, j as nat, k);
        assert(lists(cs1.bt_aux@)[k as int] == Seq::<(Fr, usize)>::empty());
        assert(p1.b@[j] == p0.b@[j]);
    }
}

/// One side (A or B) of enforcing a constraint: the new row is the
/// combination's value, the old rows are unchanged.
proof fn lemma_enforce_side(
    ls_in0: Seq<Seq<(Fr, usize)>>,
    ls_aux0: Seq<Seq<(Fr, usize)>>,
    ev0: Seq<Fr>,
    ev1: Seq<Fr>,
    t: Seq<(Index, Fr)>,
    ins: Seq<Fr>,
    aux: Seq<Fr>,
    n: usize,
)
    requires
        ls_in0.len() == ins.len(),
        ls_aux0.len() == aux.len(),
        ev0.len() == n,
        entries_wf(ls_in0, n as nat),
        entries_wf(ls_aux0, n as nat),
        lc_wf(t, ins.len(), aux.len()),
        forall|j: int| 0 <= j < ev0.len() ==> (#[trigger] ev0[j])@ == row_value(ls_in0, ls_aux0, ins, aux, j as nat),
        values(ev1) == values(ev0).push(lc_value(t, ins, aux)),
    ensures
        forall|j: int| 0 <= j < ev1.len() ==> (#[trigger] ev1[j])@ == row_value(
            recorded(ls_in0, t, true, n),
            recorded(ls_aux0, t, false, n),
            ins,
            aux,
            j as nat,
        ),
{
    let ls_in1 = recorded(ls_in0, t, true, n);
    let ls_aux1 = recorded(ls_aux0, t, false, n);
    assert(values(ev1).len() == ev1.len());
    assert forall|j: int| 0 <= j < ev1.len() implies (#[trigger] ev1[j])@ == row_value(ls_in1, ls_aux1, ins, aux, j as nat) by {
        lemma_recorded_columns(ls_in0, ls_aux0, t, ins, aux, n, j as nat);
        assert(values(ev1)[j] == ev1[j]@);
        if j < n {
            assert(values(ev0)[j] == ev0[j]@);
        } else {
            lemma_column_beyond(ls_in0, ins, n as nat, ins.len());
            lemma_column_beyond(ls_aux0, aux, n as nat, aux.len());
            lemma_lc_value_sum(t, ins, aux);
        }
    }
}

/// Law: enforcing the same constraint in both syntheses keeps them in
/// agreement: the prover's new A and B evaluations are the new rows of
/// setup's matrices applied to the assignment, and the old rows stay.
pub proof fn lemma_enforce_keeps_agreement(
    cs0: KeypairAssembly,
    cs1: KeypairAssembly,
    p0: ProvingAssignment,
    p1: ProvingAssignment,
    a: Seq<(Index, Fr)>,
    b: Seq<(Index, Fr)>,
)
    requires
        synthesis_agrees(cs0, p0),
        lc_wf(a, cs0.num_inputs as nat, cs0.num_aux as nat),
        lc_wf(b, cs0.num_inputs as nat, cs0.num_aux as nat),
        setup_enforced(cs0, cs1, a, b),
        prover_enforced(p0, p1, a, b),
    ensures
        synthesis_agrees(cs1, p1),
{
    let (ins, aux) = (p0.input_assignment@, p0.aux_assignment@);
    let n = cs0.num_constraints;
    assert(values(p1.a@).len() == p1.a@.len());
    assert(values(p1.b@).len() == p1.b@.len());
    assert(values(p0.b@).len() == p0.b@.len());
    lemma_enforce_side(lists(cs0.at_inputs@), lists(cs0.at_aux@), p0.a@, p1.a@, a, ins, aux, n);
    lemma_enforce_side(lists(cs0.bt_inputs@), lists(cs0.bt_aux@), p0.b@, p1.b@, b, ins, aux, n);
}

/// Adding the consistency constraints `x_i · 0 = 0` (numbered from `nc`) to
/// the input lists leaves the columns of the earlier constraints as they were.
proof fn lemma_finished_column_before(ls: Seq<Seq<(Fr, usize)>>, ins: Seq<Fr>, nc: nat, j: nat, k: nat)
    requires
        k <= ls.len(),
        k <= ins.len(),
        j < nc,
        nc + ls.len() <= usize::MAX,
    ensures
        column(finished_inputs(ls, nc), ins, j, k) == column(ls, ins, j, k),
    decreases k,
{
    if k > 0 {
        lemma_finished_column_before(ls, ins, nc, j, (k - 1) as nat);
        lemma_coeff_at_push(ls[k - 1], (fr_one(), (nc + k - 1) as usize), j);
    }
}

/// Column `nc + i` of the finished input lists holds input `i` with
/// coefficient one, and nothing else.
proof fn lemma_finished_column_at(ls: Seq<Seq<(Fr, usize)>>, ins: Seq<Fr>, nc: nat, i: nat, k: nat)
    requires
        k <= ls.len(),
        k <= ins.len(),
        i < ls.len(),
        nc + ls.len() <= usize::MAX,
        entries_wf(ls, nc),
    ensures
        column(finished_inputs(ls, nc), ins, nc + i, k) == if i < k {
            ins[i as int]@ as int
        } else {
            0
        },
    decreases k,
{
    if k > 0 {
        lemma_finished_column_at(ls, ins, nc, i, (k - 1) as nat);
        let l = ls[k - 1];
        assert forall|m: int| 0 <= m < l.len() implies (#[trigger] l[m]).1 < nc + i by {
            assert(ls[k - 1][m] == l[m]);
        }
        lemma_coeff_at_beyond(l, nc + i);
        let e = (fr_one(), (nc + k - 1) as usize);
        lemma_coeff_at_push(l, e, nc + i);
        assert(fr_one()@ == 1) by {
            crate::field::lemma_le_nat_zero(fr_one().repr@.drop_first());
        }
        assert(finished_inputs(ls, nc)[k - 1] == l.push(e));
        assert(e.1 == nc + k - 1);
        let d = coeff_at(l.push(e), nc + i);
        assert(d == if k - 1 == i { 1int } else { 0int });
        let v = ins[k - 1]@ as int;
        assert(v * d == if k - 1 == i { v } else { 0 }) by (nonlinear_arith)
            requires
                d == if k - 1 == i { 1int } else { 0int },
        ;
    }
}

/// Law: the witness that the prover hands the core is setup's matrices
/// applied to the assignment. Setup adds the input consistency constraints
/// `x_i · 0 = 0` to its A lists, the prover adds them to its evaluations
/// (as `ProvingAssignment::witness` lays out `A·z` and `B·z`); then entry `j`
/// of `A·z` and of `B·z` is row `j` of setup's A and B matrices applied to
/// the assignment, for every constraint, and the padding is zero.
pub proof fn lemma_witness_rows(cs: KeypairAssembly, p: ProvingAssignment, az: Seq<Fr>, bz: Seq<Fr>, n: nat)
    requires
        synthesis_agrees(cs, p),
        cs.num_constraints + cs.num_inputs < usize::MAX,
        values(az) == padded(values(p.a@) + values(p.input_assignment@), n),
        values(bz) == padded(values(p.b@) + zeros(p.input_assignment@.len()), n),
    ensures
        forall|j: int|
            0 <= j < n && j < total_constraints(cs) ==> #[trigger] values(az)[j] == row_value(
                finished_inputs(lists(cs.at_inputs@), cs.num_constraints as nat),
                lists(cs.at_aux@),
                p.input_assignment@,
                p.aux_assignment@,
                j as nat,
            ),
        forall|j: int|
            0 <= j < n && j < total_constraints(cs) ==> #[trigger] values(bz)[j] == row_value(
                lists(cs.bt_inputs@),
                lists(cs.bt_aux@),
                p.input_assignment@,
                p.aux_assignment@,
                j as nat,
            ),
        forall|j: int| total_constraints(cs) <= j < n ==> #[trigger] values(az)[j] == 0 && values(bz)[j] == 0,
{
    let (ins, aux) = (p.input_assignment@, p.aux_assignment@);
    let nc = cs.num_constraints as nat;
    let ls_a = lists(cs.at_inputs@);
    let fin = finished_inputs(ls_a, nc);
    let r = fr_modulus() as int;
    assert forall|j: int| 0 <= j < n && j < total_constraints(cs) implies #[trigger] values(az)[j] == row_value(
        fin, lists(cs.at_aux@), ins, aux, j as nat) by {
        assert(values(az)[j] == padded(values(p.a@) + values(ins), n)[j]);
        if j < nc {
            lemma_finished_column_before(ls_a, ins, nc, j as nat, ins.len());
            assert(values(p.a@)[j] == p.a@[j]@);
        } else {
            let i = (j - nc) as nat;
            lemma_finished_column_at(ls_a, ins, nc, i, ins.len());
            lemma_column_beyond(lists(cs.at_aux@), aux, nc + i, aux.len());
            assert(values(ins)[i as int] == ins[i as int]@);
            assert(ins[i as int].wf());
            vstd::arithmetic::div_mod::lemma_small_mod(ins[i as int]@, fr_modulus());
        }
    }
    assert forall|j: int| 0 <= j < n && j < total_constraints(cs) implies #[trigger] values(bz)[j] == row_value(
        lists(cs.bt_inputs@), lists(cs.bt_aux@), ins, aux, j as nat) by {
        assert(values(bz)[j] == padded(values(p.b@) + zeros(ins.len()), n)[j]);
        if j < nc {
            assert(values(p.b@)[j] == p.b@[j]@);
        } else {
            lemma_column_beyond(lists(cs.bt_inputs@), ins, j as nat, ins.len());
            lemma_column_beyond(lists(cs.bt_aux@), aux, j as nat, aux.len());
        }
    }
    assert forall|j: int| total_constraints(cs) <= j < n implies #[trigger] values(az)[j] == 0 && values(bz)[j] == 0 by {
        assert(values(az)[j] == padded(values(p.a@) + values(ins), n)[j]);
        assert(values(bz)[j] == padded(values(p.b@) + zeros(ins.len()), n)[j]);
    }
}

/// `Σ_{i<k} f(i)` over the integers.
pub open spec fn sum(k: nat, f: spec_fn(int) -> int) -> int
    decreases k,
{
    if k == 0 {
        0
    } else {
        sum((k - 1) as nat, f) + f(k - 1)
    }
}

proof fn lemma_sum_ext(k: nat, f: spec_fn(int) -> int, g: spec_fn(int) -> int)
    requires
        forall|i: int| 0 <= i < k ==> #[trigger] f(i) == g(i),
    ensures
        sum(k, f) == sum(k, g),
    decreases k,
{
    if k > 0 {
        lemma_sum_ext((k - 1) as nat, f, g);
    }
}

proof fn lemma_sum_add(k: nat, f: spec_fn(int) -> int, g: spec_fn(int) -> int, h: spec_fn(int) -> int)
    requires
        forall|i: int| 0 <= i < k ==> #[trigger] h(i) == f(i) + g(i),
    ensures
        sum(k, h) == sum(k, f) + sum(k, g),
    decreases k,
{
    if k > 0 {
        lemma_sum_add((k - 1) as nat, f, g, h);
    }
}

proof fn lemma_sum_scale(k: nat, f: spec_fn(int) -> int, g: spec_fn(int) -> int, c: int)
    requires
        forall|i: int| 0 <= i < k ==> #[trigger] g(i) == c * f(i),
    ensures
        sum(k, g) == c * sum(k, f),
    decreases k,
{
    if k > 0 {
        lemma_sum_scale((k - 1) as nat, f, g, c);
        let (a, b) = (sum((k - 1) as nat, f), f(k - 1));
        assert(c * a + c * b == c * (a + b)) by (nonlinear_arith);
    }
}

/// A sum whose terms vanish outside position `r` is its term at `r`.
proof fn lemma_sum_single(k: nat, f: spec_fn(int) -> int, r: int)
    requires
        0 <= r < k,
        forall|i: int| 0 <= i < k && i != r ==> #[trigger] f(i) == 0,
    ensures
        sum(k, f) == f(r),
    decreases k,
{
    if k - 1 > r {
        lemma_sum_single((k - 1) as nat, f, r);
    } else {
        lemma_sum_zero((k - 1) as nat, f);
    }
}

proof fn lemma_sum_zero(k: nat, f: spec_fn(int) -> int)
    requires
        forall|i: int| 0 <= i < k ==> #[trigger] f(i) == 0,
    ensures
        sum(k, f) == 0,
    decreases k,
{
    if k > 0 {
        lemma_sum_zero((k - 1) as nat, f);
    }
}

/// Sums of termwise congruent terms are congruent.
proof fn lemma_sum_mod(k: nat, f: spec_fn(int) -> int, g: spec_fn(int) -> int, m: int)
    requires
        m > 0,
        forall|i: int| 0 <= i < k ==> #[trigger] f(i) % m == g(i) % m,
    ensures
        sum(k, f) % m == sum(k, g) % m,
    decreases k,
{
    if k > 0 {
        lemma_sum_mod((k - 1) as nat, f, g, m);
        let (sf, sg) = (sum((k - 1) as nat, f), sum((k - 1) as nat, g));
        vstd::arithmetic::div_mod::lemma_add_mod_noop(sf, f(k - 1), m);
        vstd::arithmetic::div_mod::lemma_add_mod_noop(sg, g(k - 1), m);
    }
}

/// Splitting a sum at `a`.
proof fn lemma_sum_split(a: nat, b: nat, f: spec_fn(int) -> int, g: spec_fn(int) -> int)
    requires
        forall|i: int| 0 <= i < b ==> #[trigger] g(i) == f(a + i),
    ensures
        sum(a + b, f) == sum(a, f) + sum(b, g),
    decreases b,
{
    if b > 0 {
        lemma_sum_split(a, (b - 1) as nat, f, g);
        assert(g(b - 1) == f(a + b - 1));
    }
}

/// A QAP polynomial given by its entries, evaluated against `lag` over the
/// integers: `Σ lag[j] · coeff`.
pub open spec fn list_eval(lag: Seq<nat>, p: Seq<(Fr, usize)>) -> int
    decreases p.len(),
{
    if p.len() == 0 {
        0
    } else {
        list_eval(lag, p.drop_last()) + (lag[p.last().1 as int] * p.last().0@) as int
    }
}

/// `qap_eval` is the integer evaluation, reduced.
proof fn lemma_qap_eval_mod(lag: Seq<nat>, p: Seq<(Fr, usize)>)
    ensures
        qap_eval(lag, p) as int == list_eval(lag, p) % (fr_modulus() as int),
    decreases p.len(),
{
    if p.len() > 0 {
        lemma_qap_eval_mod(lag, p.drop_last());
        let (c, j) = p.last();
        let x = list_eval(lag, p.drop_last());
        let y = (lag[j as int] * c@) as int;
        vstd::arithmetic::div_mod::lemma_add_mod_noop(x, y, fr_modulus() as int);
    }
}

/// Evaluating a polynomial entry by entry is summing its coefficient at each
/// constraint against that constraint's basis value.
proof fn lemma_list_eval_rows(lag: Seq<nat>, p: Seq<(Fr, usize)>, n: nat)
    requires
        forall|k: int| 0 <= k < p.len() ==> (#[trigger] p[k]).1 < n,
    ensures
        list_eval(lag, p) == sum(n, |r: int| lag[r] * coeff_at(p, r as nat)),
    decreases p.len(),
{
    if p.len() == 0 {
        lemma_sum_zero(n, |r: int| lag[r] * coeff_at(p, r as nat));
    } else {
        let q = p.drop_last();
        let (c, j) = p.last();
        assert forall|k: int| 0 <= k < q.len() implies (#[trigger] q[k]).1 < n by {
            assert(q[k] == p[k]);
        }
        lemma_list_eval_rows(lag, q, n);
        assert(p.last() == p[p.len() - 1]);
        let f = |r: int| lag[r] * coeff_at(q, r as nat);
        let g = |r: int| if r == j as int { (lag[r] * c@) as int } else { 0 };
        let h = |r: int| lag[r] * coeff_at(p, r as nat);
        assert forall|r: int| 0 <= r < n implies #[trigger] h(r) == f(r) + g(r) by {
            let (l, a) = (lag[r] as int, coeff_at(q, r as nat));
            let d = if j == r { c@ as int } else { 0 };
            assert(l * (a + d) == l * a + l * d) by (nonlinear_arith);
        }
        lemma_sum_add(n, f, g, h);
        lemma_sum_single(n, g, j as int);
    }
}

/// Exchanging the order of summation: the values dotted with the
/// evaluations of their polynomials are the basis values dotted with the
/// columns.
proof fn lemma_weighted_rows(lag: Seq<nat>, ls: Seq<Seq<(Fr, usize)>>, vals: Seq<Fr>, n: nat, k: nat)
    requires
        k <= ls.len(),
        entries_wf(ls, n),
    ensures
        sum(k, |v: int| vals[v]@ * list_eval(lag, ls[v])) == sum(
            n,
            |r: int| lag[r] * column(ls, vals, r as nat, k),
        ),
    decreases k,
{
    if k == 0 {
        lemma_sum_zero(n, |r: int| lag[r] * column(ls, vals, r as nat, k));
    } else {
        let k1 = (k - 1) as nat;
        lemma_weighted_rows(lag, ls, vals, n, k1);
        let l = ls[k1 as int];
        assert forall|m: int| 0 <= m < l.len() implies (#[trigger] l[m]).1 < n by {
            assert(ls[k1 as int][m] == l[m]);
        }
        lemma_list_eval_rows(lag, l, n);
        let v = vals[k1 as int]@ as int;
        let f = |r: int| lag[r] * coeff_at(l, r as nat);
        let g = |r: int| v * (lag[r] * coeff_at(l, r as nat));
        lemma_sum_scale(n, f, g, v);
        let prev = |r: int| lag[r] * column(ls, vals, r as nat, k1);
        let h = |r: int| lag[r] * column(ls, vals, r as nat, k);
        assert forall|r: int| 0 <= r < n implies #[trigger] h(r) == prev(r) + g(r) by {
            let (x, cc, a) = (lag[r] as int, column(ls, vals, r as nat, k1), coeff_at(l, r as nat));
            assert(x * (cc + v * a) == x * cc + v * (x * a)) by (nonlinear_arith);
        }
        lemma_sum_add(n, prev, g, h);
    }
}

/// The assignment dotted with the evaluations of one matrix's polynomials
/// (inputs, then aux) is, in the field, the basis values dotted with the
/// matrix's rows applied to the assignment.
proof fn lemma_dot_rows(
    lag: Seq<nat>,
    ls_in: Seq<Seq<(Fr, usize)>>,
    ls_aux: Seq<Seq<(Fr, usize)>>,
    ins: Seq<Fr>,
    aux: Seq<Fr>,
    n: nat,
)
    requires
        ls_in.len() == ins.len(),
        ls_aux.len() == aux.len(),
        entries_wf(ls_in, n),
        entries_wf(ls_aux, n),
    ensures
        (sum(ins.len(), |j: int| (ins[j]@ * qap_eval(lag, ls_in[j])) as int) + sum(
            aux.len(),
            |v: int| (aux[v]@ * qap_eval(lag, ls_aux[v])) as int,
        )) % (fr_modulus() as int) == sum(n, |r: int| (lag[r] * row_value(ls_in, ls_aux, ins, aux, r as nat)) as int)
            % (fr_modulus() as int),
{
    let m = fr_modulus() as int;
    let (ni, na) = (ins.len(), aux.len());
    let qi = |j: int| (ins[j]@ * qap_eval(lag, ls_in[j])) as int;
    let li = |j: int| ins[j]@ * list_eval(lag, ls_in[j]);
    let qa = |v: int| (aux[v]@ * qap_eval(lag, ls_aux[v])) as int;
    let la = |v: int| aux[v]@ * list_eval(lag, ls_aux[v]);
    assert forall|j: int| 0 <= j < ni implies #[trigger] qi(j) % m == li(j) % m by {
        lemma_qap_eval_mod(lag, ls_in[j]);
        vstd::arithmetic::div_mod::lemma_mul_mod_noop_right(ins[j]@ as int, list_eval(lag, ls_in[j]), m);
    }
    assert forall|v: int| 0 <= v < na implies #[trigger] qa(v) % m == la(v) % m by {
        lemma_qap_eval_mod(lag, ls_aux[v]);
        vstd::arithmetic::div_mod::lemma_mul_mod_noop_right(aux[v]@ as int, list_eval(lag, ls_aux[v]), m);
    }
    lemma_sum_mod(ni, qi, li, m);
    lemma_sum_mod(na, qa, la, m);
    vstd::arithmetic::div_mod::lemma_add_mod_noop(sum(ni, qi), sum(na, qa), m);
    vstd::arithmetic::div_mod::lemma_add_mod_noop(sum(ni, li), sum(na, la), m);
    lemma_weighted_rows(lag, ls_in, ins, n, ni);
    lemma_weighted_rows(lag, ls_aux, aux, n, na);
    let ci = |r: int| lag[r] * column(ls_in, ins, r as nat, ni);
    let ca = |r: int| lag[r] * column(ls_aux, aux, r as nat, na);
    let both = |r: int| lag[r] * (column(ls_in, ins, r as nat, ni) + column(ls_aux, aux, r as nat, na));
    assert forall|r: int| 0 <= r < n implies #[trigger] both(r) == ci(r) + ca(r) by {
        let (x, a, b) = (lag[r] as int, column(ls_in, ins, r as nat, ni), column(ls_aux, aux, r as nat, na));
        assert(x * (a + b) == x * a + x * b) by (nonlinear_arith);
    }
    lemma_sum_add(n, ci, ca, both);
    let rows = |r: int| (lag[r] * row_value(ls_in, ls_aux, ins, aux, r as nat)) as int;
    assert forall|r: int| 0 <= r < n implies #[trigger] both(r) % m == rows(r) % m by {
        let t = column(ls_in, ins, r as nat, ni) + column(ls_aux, aux, r as nat, na);
        assert(row_value(ls_in, ls_aux, ins, aux, r as nat) as int == t % m);
        vstd::arithmetic::div_mod::lemma_mul_mod_noop_right(lag[r] as int, t, m);
    }
    lemma_sum_mod(n, both, rows, m);
}

/// With the consistency constraints in, every entry of the input lists names
/// a constraint below `nc + ni`.
proof fn lemma_finished_entries(ls: Seq<Seq<(Fr, usize)>>, nc: nat)
    requires
        entries_wf(ls, nc),
        nc + ls.len() <= usize::MAX,
    ensures
        entries_wf(finished_inputs(ls, nc), nc + ls.len()),
{
    let fin = finished_inputs(ls, nc);
    assert(fr_one()@ == 1) by {
        crate::field::lemma_le_nat_zero(fr_one().repr@.drop_first());
    }
    assert forall|i: int, k: int| 0 <= i < fin.len() && 0 <= k < fin[i].len() implies {
        &&& (#[trigger] fin[i][k]).0.wf()
        &&& fin[i][k].1 < nc + ls.len()
    } by {
        assert(fin[i] == ls[i].push((fr_one(), (nc + i) as usize)));
        if k < ls[i].len() {
            assert(fin[i][k] == ls[i][k]);
        }
    }
}

/// One matrix (A or B): the key's evaluations dotted with the assignment,
/// against the basis dotted with the witness vector.
proof fn lemma_key_side(
    lag: Seq<nat>,
    ls_in: Seq<Seq<(Fr, usize)>>,
    ls_aux: Seq<Seq<(Fr, usize)>>,
    ins: Seq<Fr>,
    aux: Seq<Fr>,
    w: Seq<nat>,
    total: nat,
    n: nat,
)
    requires
        ls_in.len() == ins.len(),
        ls_aux.len() == aux.len(),
        entries_wf(ls_in, total),
        entries_wf(ls_aux, total),
        total <= n,
        w.len() == n,
        forall|r: int| 0 <= r < total ==> #[trigger] w[r] == row_value(ls_in, ls_aux, ins, aux, r as nat),
        forall|r: int| total <= r < n ==> #[trigger] w[r] == 0,
    ensures
        (sum(ins.len(), |j: int| (ins[j]@ * qap_eval(lag, ls_in[j])) as int) + sum(
            aux.len(),
            |v: int| (aux[v]@ * qap_eval(lag, ls_aux[v])) as int,
        )) % (fr_modulus() as int) == sum(n, |r: int| (lag[r] * w[r]) as int) % (fr_modulus() as int),
{
    assert(entries_wf(ls_in, n));
    assert(entries_wf(ls_aux, n));
    lemma_dot_rows(lag, ls_in, ls_aux, ins, aux, n);
    let rows = |r: int| (lag[r] * row_value(ls_in, ls_aux, ins, aux, r as nat)) as int;
    let ws = |r: int| (lag[r] * w[r]) as int;
    assert forall|r: int| 0 <= r < n implies #[trigger] rows(r) == ws(r) by {
        if r >= total {
            assert(entries_wf(ls_in, r as nat));
            assert(entries_wf(ls_aux, r as nat));
            lemma_column_beyond(ls_in, ins, r as nat, ins.len());
            lemma_column_beyond(ls_aux, aux, r as nat, aux.len());
        }
    }
    lemma_sum_ext(n, rows, ws);
}

/// Law: the dense key evaluates the witness. With the input consistency
/// constraints in on both sides and a domain of `n` points that holds every
/// constraint, the assignment `z = [inputs ‖ aux]` dotted with the A
/// evaluations of setup's polynomials against basis values `lag` (the
/// exponents of the key's A query, for setup's `lag = lagrange_at(..)`) is,
/// in the scalar field, `lag` dotted with the prover's `A·z`; likewise for B
/// with `B·z`. So the core's dense MSM of the A query against `z` is the
/// evaluation of the witness's A polynomial at tau.
pub proof fn lemma_key_evaluates_witness(
    cs: KeypairAssembly,
    p: ProvingAssignment,
    az: Seq<Fr>,
    bz: Seq<Fr>,
    n: nat,
    lag: Seq<nat>,
)
    requires
        synthesis_agrees(cs, p),
        cs.num_constraints + cs.num_inputs < usize::MAX,
        total_constraints(cs) <= n,
        values(az) == padded(values(p.a@) + values(p.input_assignment@), n),
        values(bz) == padded(values(p.b@) + zeros(p.input_assignment@.len()), n),
    ensures
        sum(
            (p.input_assignment@ + p.aux_assignment@).len(),
            |j: int| ((p.input_assignment@ + p.aux_assignment@)[j]@ * var_evals(cs, lag, j).0) as int,
        ) % (fr_modulus() as int) == sum(n, |r: int| (lag[r] * values(az)[r]) as int) % (fr_modulus() as int),
        sum(
            (p.input_assignment@ + p.aux_assignment@).len(),
            |j: int| ((p.input_assignment@ + p.aux_assignment@)[j]@ * var_evals(cs, lag, j).1) as int,
        ) % (fr_modulus() as int) == sum(n, |r: int| (lag[r] * values(bz)[r]) as int) % (fr_modulus() as int),
{
    let (ins, aux) = (p.input_assignment@, p.aux_assignment@);
    let z = ins + aux;
    let (ni, na) = (ins.len(), aux.len());
    let nc = cs.num_constraints as nat;
    let total = total_constraints(cs);
    let fin = finished_inputs(lists(cs.at_inputs@), nc);
    let (a_aux, b_in, b_aux) = (lists(cs.at_aux@), lists(cs.bt_inputs@), lists(cs.bt_aux@));
    lemma_witness_rows(cs, p, az, bz, n);
    lemma_finished_entries(lists(cs.at_inputs@), nc);
    assert(entries_wf(a_aux, total));
    assert(entries_wf(b_in, total));
    assert(entries_wf(b_aux, total));

    // A: split the key's sum into inputs and aux, then compare row by row.
    let ka = |j: int| (z[j]@ * var_evals(cs, lag, j).0) as int;
    let ka_in = |j: int| (ins[j]@ * qap_eval(lag, fin[j])) as int;
    let ka_aux = |v: int| (aux[v]@ * qap_eval(lag, a_aux[v])) as int;
    assert forall|v: int| 0 <= v < na implies #[trigger] ka_aux(v) == ka(ni + v) by {
        assert(z[ni + v] == aux[v]);
        assert(a_aux[v] == cs.at_aux@[v]@);
    }
    lemma_sum_split(ni, na, ka, ka_aux);
    assert forall|j: int| 0 <= j < ni implies #[trigger] ka(j) == ka_in(j) by {
        assert(z[j] == ins[j]);
    }
    lemma_sum_ext(ni, ka, ka_in);
    lemma_key_side(lag, fin, a_aux, ins, aux, values(az), total, n);

    // B: the same with the B lists.
    let kb = |j: int| (z[j]@ * var_evals(cs, lag, j).1) as int;
    let kb_in = |j: int| (ins[j]@ * qap_eval(lag, b_in[j])) as int;
    let kb_aux = |v: int| (aux[v]@ * qap_eval(lag, b_aux[v])) as int;
    assert forall|v: int| 0 <= v < na implies #[trigger] kb_aux(v) == kb(ni + v) by {
        assert(z[ni + v] == aux[v]);
        assert(b_aux[v] == cs.bt_aux@[v]@);
    }
    lemma_sum_split(ni, na, kb, kb_aux);
    assert forall|j: int| 0 <= j < ni implies #[trigger] kb(j) == kb_in(j) by {
        assert(z[j] == ins[j]);
        assert(b_in[j] == cs.bt_inputs@[j]@);
    }
    lemma_sum_ext(ni, kb, kb_in);
    lemma_key_side(lag, b_in, b_aux, ins, aux, values(bz), total, n);
}

} // verus!
