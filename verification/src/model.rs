//! The parts of a decoded constraint system, and the mathematical values that
//! the contracts speak of.

use vstd::prelude::*;

use crate::field::Fr;

verus! {

/// The metadata of a circuit, as its header section gives it.
#[derive(Debug, Clone, PartialEq, Eq)]
pub struct R1CSHeader {
    /// Width in bytes of one serialized field element.
    pub field_size: u32,
    /// The raw bytes of the field's prime, as they stand in the file.
    pub prime_bytes: Vec<u8>,
    /// Number of wires; wire 0 is by convention the constant one.
    pub n_wires: u32,
    /// Number of public outputs.
    pub n_pub_out: u32,
    /// Number of public inputs.
    pub n_pub_in: u32,
    /// Number of private inputs.
    pub n_prvt_in: u32,
    /// Number of constraints that the file declares.
    pub n_constraints: u32,
}

/// A header as a mathematical value.
pub struct HeaderView {
    pub field_size: u32,
    pub prime_bytes: Seq<u8>,
    pub n_wires: u32,
    pub n_pub_out: u32,
    pub n_pub_in: u32,
    pub n_prvt_in: u32,
    pub n_constraints: u32,
}

impl View for R1CSHeader {
    type V = HeaderView;

    open spec fn view(&self) -> HeaderView {
        HeaderView {
            field_size: self.field_size,
            prime_bytes: self.prime_bytes@,
            n_wires: self.n_wires,
            n_pub_out: self.n_pub_out,
            n_pub_in: self.n_pub_in,
            n_prvt_in: self.n_prvt_in,
            n_constraints: self.n_constraints,
        }
    }
}

/// One term of a linear combination: a wire and the coefficient it is weighted by.
#[derive(Debug, Clone, Copy, PartialEq, Eq)]
pub struct Term {
    /// Index of the wire.
    pub wire_id: u32,
    /// The coefficient, a canonical field element.
    pub coefficient: Fr,
}

/// A term as a mathematical value: the coefficient is the canonical
/// representative of the field element.
pub struct TermView {
    pub wire_id: u32,
    pub coefficient: nat,
}

impl View for Term {
    type V = TermView;

    open spec fn view(&self) -> TermView {
        TermView { wire_id: self.wire_id, coefficient: self.coefficient@ }
    }
}

/// The terms of a linear combination as mathematical values, in their order.
pub open spec fn terms_view(terms: Seq<Term>) -> Seq<TermView> {
    terms.map_values(|t: Term| t@)
}

/// One constraint: the linear combinations A, B and C of the relation
/// (A·w)·(B·w) = (C·w) over the wire values w. Terms keep the order of the
/// file, and a wire may occur more than once in a combination.
#[derive(Debug, Clone, PartialEq, Eq)]
pub struct R1CSConstraint {
    pub a_terms: Vec<Term>,
    pub b_terms: Vec<Term>,
    pub c_terms: Vec<Term>,
}

/// A constraint as a mathematical value.
pub struct ConstraintView {
    pub a_terms: Seq<TermView>,
    pub b_terms: Seq<TermView>,
    pub c_terms: Seq<TermView>,
}

impl View for R1CSConstraint {
    type V = ConstraintView;

    open spec fn view(&self) -> ConstraintView {
        ConstraintView {
            a_terms: terms_view(self.a_terms@),
            b_terms: terms_view(self.b_terms@),
            c_terms: terms_view(self.c_terms@),
        }
    }
}

/// The constraints of a list as mathematical values, in their order.
pub open spec fn constraints_view(constraints: Seq<R1CSConstraint>) -> Seq<ConstraintView> {
    constraints.map_values(|c: R1CSConstraint| c@)
}

/// A whole document as a mathematical value.
pub struct R1CSView {
    pub header: HeaderView,
    pub constraints: Seq<ConstraintView>,
}

} // verus!
