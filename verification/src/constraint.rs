//! The constraint-system vocabulary shared by setup and proving: variables,
//! linear combinations over them, and the errors that synthesis reports.
use vstd::prelude::*;

use crate::field::{fr_modulus, Fr};

verus! {

/// A variable of the constraint system: a public input or an auxiliary
/// (witness) variable, by position.
#[derive(Clone, Copy, PartialEq, Eq, Structural, Debug)]
pub enum Index {
    Input(usize),
    Aux(usize),
}

/// `Σ coeff · variable`, term by term in the order the circuit wrote them.
pub struct LinearCombination {
    pub terms: Vec<(Index, Fr)>,
}

/// The failures that setup and proving report themselves.
#[derive(Clone, Copy, PartialEq, Eq, Structural, Debug)]
pub enum Groth16Error {
    /// The evaluation domain would exceed the field's two-adicity.
    PolynomialDegreeTooLarge,
    /// A toxic-waste value or a verifying-key element is zero / at infinity.
    UnexpectedIdentity,
    /// An auxiliary variable takes part in no constraint.
    UnconstrainedVariable,
}

impl LinearCombination {
    /// The empty combination.
    pub fn zero() -> (lc: LinearCombination)
        ensures
            lc.terms@ == Seq::<(Index, Fr)>::empty(),
    {
        LinearCombination { terms: Vec::new() }
    }

    /// The combination with one term, `coeff · var`.
    pub fn term(var: Index, coeff: Fr) -> (lc: LinearCombination)
        ensures
            lc.terms@ == seq![(var, coeff)],
    {
        let mut terms = Vec::new();
        terms.push((var, coeff));
        LinearCombination { terms }
    }
}

/// Every term names a variable below the given counts and has a canonical
/// coefficient.
pub open spec fn lc_wf(terms: Seq<(Index, Fr)>, num_inputs: nat, num_aux: nat) -> bool {
    forall|k: int|
        0 <= k < terms.len() ==> {
            &&& (#[trigger] terms[k]).1.wf()
            &&& match terms[k].0 {
                Index::Input(i) => i < num_inputs,
                Index::Aux(i) => i < num_aux,
            }
        }
}

/// Every coefficient is canonical, and every term with a non-zero
/// coefficient names a variable below the given counts; a term with a zero
/// coefficient may name any variable, since evaluation never reads it.
pub open spec fn lc_reads_allocated(terms: Seq<(Index, Fr)>, num_inputs: nat, num_aux: nat) -> bool {
    forall|k: int|
        0 <= k < terms.len() ==> {
            &&& (#[trigger] terms[k]).1.wf()
            &&& terms[k].1@ != 0 ==> match terms[k].0 {
                Index::Input(i) => i < num_inputs,
                Index::Aux(i) => i < num_aux,
            }
        }
}

/// The value that an assignment gives a variable.
pub open spec fn var_value(v: Index, inputs: Seq<Fr>, aux: Seq<Fr>) -> nat {
    match v {
        Index::Input(i) => inputs[i as int]@,
        Index::Aux(i) => aux[i as int]@,
    }
}

/// `Σ coeff · value(var)` over the terms, reduced modulo the scalar field.
pub open spec fn lc_value(terms: Seq<(Index, Fr)>, inputs: Seq<Fr>, aux: Seq<Fr>) -> nat
    decreases terms.len(),
{
    if terms.len() == 0 {
        0
    } else {
        let (v, c) = terms.last();
        (lc_value(terms.drop_last(), inputs, aux) + c@ * var_value(v, inputs, aux))
            % fr_modulus()
    }
}

/// Every value of an assignment is canonical.
pub open spec fn all_wf(s: Seq<Fr>) -> bool {
    forall|k: int| 0 <= k < s.len() ==> (#[trigger] s[k]).wf()
}

} // verus!
