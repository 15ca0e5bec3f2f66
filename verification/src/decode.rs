//! The decoders of the section bodies: the header, and the constraints with
//! their linear combinations and coefficients.

use vstd::prelude::*;
use vstd::slice::{slice_subrange, slice_to_vec};

use crate::bytes::{
    in_bounds, le_value, lemma_le_value_push_zero, lemma_le_value_zeros, lemma_window_range,
    read_u32_at, read_u64_at, u32_at,
};
use crate::document::R1CS;
use crate::error::ParseError;
use crate::field::{field_value, Fr};
use crate::model::{
    constraints_view, terms_view, ConstraintView, HeaderView, R1CSConstraint, R1CSHeader, Term,
    TermView,
};

verus! {

/// The header that begins at offset `pos`: the field size, that many bytes of
/// the prime, four 32-bit counts, the 64-bit label count, which is passed
/// over, and the count of constraints. It takes `32 + field_size` bytes.
pub open spec fn spec_read_header(data: Seq<u8>, pos: int) -> Result<HeaderView, ParseError> {
    if !in_bounds(data, pos, 4) {
        Err(ParseError::IOFailure)
    } else if !in_bounds(data, pos, 32 + u32_at(data, pos)) {
        Err(ParseError::IOFailure)
    } else {
        let counts: int = pos + 4 + u32_at(data, pos);
        Ok(
            HeaderView {
                field_size: u32_at(data, pos),
                prime_bytes: data.subrange(pos + 4, counts),
                n_wires: u32_at(data, counts),
                n_pub_out: u32_at(data, counts + 4),
                n_pub_in: u32_at(data, counts + 8),
                n_prvt_in: u32_at(data, counts + 12),
                n_constraints: u32_at(data, counts + 24),
            },
        )
    }
}

/// The offset at which the term at `index` begins, in a run of terms that
/// begins at `pos`: every term takes four bytes and the field size.
pub open spec fn term_offset(pos: int, index: int, field_size: u32) -> int {
    pos + index * (4 + field_size)
}

/// The term whose bytes begin at offset `pos`: the wire index is a 32-bit
/// little-endian integer, the coefficient is the field element that the
/// `field_size` bytes behind it decode to.
pub open spec fn term_at(data: Seq<u8>, pos: int, field_size: u32) -> TermView {
    TermView {
        wire_id: u32_at(data, pos),
        coefficient: field_value(data.subrange(pos + 4, pos + 4 + field_size)),
    }
}

/// The term that begins at offset `pos`, with the offset behind it: a wire
/// index, then `field_size` bytes of coefficient.
pub open spec fn spec_read_term(data: Seq<u8>, pos: int, field_size: u32) -> Result<
    (TermView, int),
    ParseError,
> {
    if !in_bounds(data, pos, 4) {
        Err(ParseError::IOFailure)
    } else if !in_bounds(data, pos + 4, field_size as int) {
        Err(ParseError::FieldDecodeFailure)
    } else {
        Ok((term_at(data, pos, field_size), pos + 4 + field_size))
    }
}

/// The first `count` terms from offset `pos` on, in file order, with the
/// offset behind the last of them.
pub open spec fn spec_read_terms(data: Seq<u8>, pos: int, count: nat, field_size: u32) -> Result<
    (Seq<TermView>, int),
    ParseError,
>
    decreases count,
{
    if count == 0 {
        Ok((Seq::empty(), pos))
    } else {
        match spec_read_terms(data, pos, (count - 1) as nat, field_size) {
            Err(e) => Err(e),
            Ok((terms, next)) => match spec_read_term(data, next, field_size) {
                Err(e) => Err(e),
                Ok((term, end)) => Ok((terms.push(term), end)),
            },
        }
    }
}

/// The linear combination that begins at offset `pos`, with the offset behind
/// it: a count of terms, then that many terms.
pub open spec fn spec_read_linear_combination(data: Seq<u8>, pos: int, field_size: u32) -> Result<
    (Seq<TermView>, int),
    ParseError,
> {
    if !in_bounds(data, pos, 4) {
        Err(ParseError::IOFailure)
    } else {
        spec_read_terms(data, pos + 4, u32_at(data, pos) as nat, field_size)
    }
}

/// The constraint that begins at offset `pos`, with the offset behind it: the
/// linear combinations A, B and C, in this order.
pub open spec fn spec_read_constraint(data: Seq<u8>, pos: int, field_size: u32) -> Result<
    (ConstraintView, int),
    ParseError,
> {
    match spec_read_linear_combination(data, pos, field_size) {
        Err(e) => Err(e),
        Ok((a_terms, after_a)) => match spec_read_linear_combination(data, after_a, field_size) {
            Err(e) => Err(e),
            Ok((b_terms, after_b)) => match spec_read_linear_combination(
                data,
                after_b,
                field_size,
            ) {
                Err(e) => Err(e),
                Ok((c_terms, after_c)) => Ok((ConstraintView { a_terms, b_terms, c_terms }, after_c)),
            },
        },
    }
}

/// The first `count` constraints from offset `pos` on, in file order, with the
/// offset behind the last of them.
pub open spec fn spec_read_constraints(data: Seq<u8>, pos: int, count: nat, field_size: u32) -> Result<
    (Seq<ConstraintView>, int),
    ParseError,
>
    decreases count,
{
    if count == 0 {
        Ok((Seq::empty(), pos))
    } else {
        match spec_read_constraints(data, pos, (count - 1) as nat, field_size) {
            Err(e) => Err(e),
            Ok((constraints, next)) => match spec_read_constraint(data, next, field_size) {
                Err(e) => Err(e),
                Ok((constraint, end)) => Ok((constraints.push(constraint), end)),
            },
        }
    }
}

/// A run of terms can be read exactly when the data holds all of it, and then
/// each term is read from its own place in the run.
pub proof fn lemma_read_terms_layout(data: Seq<u8>, pos: int, count: nat, field_size: u32)
    ensures
        spec_read_terms(data, pos, count, field_size) is Ok <==> count == 0 || (0 <= pos
            && term_offset(pos, count as int, field_size) <= data.len()),
        spec_read_terms(data, pos, count, field_size) is Ok ==> {
            let (terms, end) = spec_read_terms(data, pos, count, field_size)->Ok_0;
            &&& terms.len() == count
            &&& end == term_offset(pos, count as int, field_size)
            &&& forall|i: int|
                0 <= i < count ==> #[trigger] terms[i] == term_at(
                    data,
                    term_offset(pos, i, field_size),
                    field_size,
                )
        },
    decreases count,
{
    if count > 0 {
        lemma_read_terms_layout(data, pos, (count - 1) as nat, field_size);
        let width: int = 4 + field_size;
        assert(count * width == (count - 1) * width + width) by (nonlinear_arith);
        assert(count > 1 ==> (count - 1) * width >= width) by (nonlinear_arith)
            requires
                width >= 0,
        ;
        assert(0 * width == 0);
        if spec_read_terms(data, pos, count, field_size) is Ok {
            let before = spec_read_terms(data, pos, (count - 1) as nat, field_size)->Ok_0;
            let after = spec_read_terms(data, pos, count, field_size)->Ok_0;
            assert forall|i: int| 0 <= i < count implies #[trigger] after.0[i] == term_at(
                data,
                term_offset(pos, i, field_size),
                field_size,
            ) by {
                if i < count - 1 {
                    assert(after.0[i] == before.0[i]);
                }
            }
        }
    } else {
        assert(0 * (4 + field_size) == 0);
    }
}

/// Terms that could not be read stay unread, with the same error, however
/// many more the combination declares.
pub proof fn lemma_read_terms_error_persists(
    data: Seq<u8>,
    pos: int,
    failed: nat,
    count: nat,
    field_size: u32,
)
    requires
        failed <= count,
        spec_read_terms(data, pos, failed, field_size) is Err,
    ensures
        spec_read_terms(data, pos, count, field_size) == spec_read_terms(
            data,
            pos,
            failed,
            field_size,
        ),
    decreases count,
{
    if failed < count {
        lemma_read_terms_error_persists(data, pos, failed, (count - 1) as nat, field_size);
    }
}

/// As many constraints are read as were asked for.
pub proof fn lemma_read_constraints_count(data: Seq<u8>, pos: int, count: nat, field_size: u32)
    requires
        spec_read_constraints(data, pos, count, field_size) is Ok,
    ensures
        spec_read_constraints(data, pos, count, field_size)->Ok_0.0.len() == count,
    decreases count,
{
    if count > 0 {
        lemma_read_constraints_count(data, pos, (count - 1) as nat, field_size);
    }
}

/// Constraints that could not be read stay unread, with the same error,
/// however many more the header declares.
pub proof fn lemma_read_constraints_error_persists(
    data: Seq<u8>,
    pos: int,
    failed: nat,
    count: nat,
    field_size: u32,
)
    requires
        failed <= count,
        spec_read_constraints(data, pos, failed, field_size) is Err,
    ensures
        spec_read_constraints(data, pos, count, field_size) == spec_read_constraints(
            data,
            pos,
            failed,
            field_size,
        ),
    decreases count,
{
    if failed < count {
        lemma_read_constraints_error_persists(data, pos, failed, (count - 1) as nat, field_size);
    }
}

/// A header that is decoded from a window of the data alone is the header
/// that is decoded from the data at the window's start.
pub proof fn lemma_read_header_in_window(data: Seq<u8>, start: int, end: int)
    requires
        0 <= start <= end <= data.len(),
        spec_read_header(data.subrange(start, end), 0) is Ok,
    ensures
        spec_read_header(data, start) == spec_read_header(data.subrange(start, end), 0),
{
    let window = data.subrange(start, end);
    let counts = 4 + u32_at(window, 0);
    lemma_window_range(data, start, end, 0, 4);
    lemma_window_range(data, start, end, 4, counts);
    lemma_window_range(data, start, end, counts, counts + 4);
    lemma_window_range(data, start, end, counts + 4, counts + 8);
    lemma_window_range(data, start, end, counts + 8, counts + 12);
    lemma_window_range(data, start, end, counts + 12, counts + 16);
    lemma_window_range(data, start, end, counts + 24, counts + 28);
}

/// Terms that are decoded from a window of the data alone are the terms that
/// are decoded from the data, as far behind the window's start.
pub proof fn lemma_read_terms_in_window(
    data: Seq<u8>,
    start: int,
    end: int,
    offset: int,
    count: nat,
    field_size: u32,
)
    requires
        0 <= start <= end <= data.len(),
        0 <= offset,
        spec_read_terms(data.subrange(start, end), offset, count, field_size) is Ok,
    ensures
        spec_read_terms(data, start + offset, count, field_size) is Ok,
        spec_read_terms(data, start + offset, count, field_size)->Ok_0.0 == spec_read_terms(
            data.subrange(start, end),
            offset,
            count,
            field_size,
        )->Ok_0.0,
        spec_read_terms(data, start + offset, count, field_size)->Ok_0.1 == start + spec_read_terms(
            data.subrange(start, end),
            offset,
            count,
            field_size,
        )->Ok_0.1,
        offset <= spec_read_terms(data.subrange(start, end), offset, count, field_size)->Ok_0.1,
        count > 0 ==> spec_read_terms(data.subrange(start, end), offset, count, field_size)->Ok_0.1
            <= end - start,
    decreases count,
{
    if count > 0 {
        let window = data.subrange(start, end);
        lemma_read_terms_in_window(data, start, end, offset, (count - 1) as nat, field_size);
        let next = spec_read_terms(window, offset, (count - 1) as nat, field_size)->Ok_0.1;
        lemma_window_range(data, start, end, next, next + 4);
        lemma_window_range(data, start, end, next + 4, next + 4 + field_size);
    }
}

/// A linear combination that is decoded from a window of the data alone is
/// the one that is decoded from the data, as far behind the window's start.
pub proof fn lemma_read_linear_combination_in_window(
    data: Seq<u8>,
    start: int,
    end: int,
    offset: int,
    field_size: u32,
)
    requires
        0 <= start <= end <= data.len(),
        0 <= offset,
        spec_read_linear_combination(data.subrange(start, end), offset, field_size) is Ok,
    ensures
        spec_read_linear_combination(data, start + offset, field_size) is Ok,
        spec_read_linear_combination(data, start + offset, field_size)->Ok_0.0
            == spec_read_linear_combination(data.subrange(start, end), offset, field_size)->Ok_0.0,
        spec_read_linear_combination(data, start + offset, field_size)->Ok_0.1 == start
            + spec_read_linear_combination(data.subrange(start, end), offset, field_size)->Ok_0.1,
        offset <= spec_read_linear_combination(
            data.subrange(start, end),
            offset,
            field_size,
        )->Ok_0.1 <= end - start,
{
    let window = data.subrange(start, end);
    lemma_window_range(data, start, end, offset, offset + 4);
    lemma_read_terms_in_window(
        data,
        start,
        end,
        offset + 4,
        u32_at(window, offset) as nat,
        field_size,
    );
}

/// A constraint that is decoded from a window of the data alone is the one
/// that is decoded from the data, as far behind the window's start.
pub proof fn lemma_read_constraint_in_window(
    data: Seq<u8>,
    start: int,
    end: int,
    offset: int,
    field_size: u32,
)
    requires
        0 <= start <= end <= data.len(),
        0 <= offset,
        spec_read_constraint(data.subrange(start, end), offset, field_size) is Ok,
    ensures
        spec_read_constraint(data, start + offset, field_size) is Ok,
        spec_read_constraint(data, start + offset, field_size)->Ok_0.0 == spec_read_constraint(
            data.subrange(start, end),
            offset,
            field_size,
        )->Ok_0.0,
        spec_read_constraint(data, start + offset, field_size)->Ok_0.1 == start
            + spec_read_constraint(data.subrange(start, end), offset, field_size)->Ok_0.1,
        offset <= spec_read_constraint(data.subrange(start, end), offset, field_size)->Ok_0.1,
{
    let window = data.subrange(start, end);
    lemma_read_linear_combination_in_window(data, start, end, offset, field_size);
    let after_a = spec_read_linear_combination(window, offset, field_size)->Ok_0.1;
    lemma_read_linear_combination_in_window(data, start, end, after_a, field_size);
    let after_b = spec_read_linear_combination(window, after_a, field_size)->Ok_0.1;
    lemma_read_linear_combination_in_window(data, start, end, after_b, field_size);
}

/// Constraints that are decoded from a window of the data alone are the ones
/// that are decoded from the data, as far behind the window's start.
pub proof fn lemma_read_constraints_in_window(
    data: Seq<u8>,
    start: int,
    end: int,
    offset: int,
    count: nat,
    field_size: u32,
)
    requires
        0 <= start <= end <= data.len(),
        0 <= offset,
        spec_read_constraints(data.subrange(start, end), offset, count, field_size) is Ok,
    ensures
        spec_read_constraints(data, start + offset, count, field_size) is Ok,
        spec_read_constraints(data, start + offset, count, field_size)->Ok_0.0
            == spec_read_constraints(data.subrange(start, end), offset, count, field_size)->Ok_0.0,
        spec_read_constraints(data, start + offset, count, field_size)->Ok_0.1 == start
            + spec_read_constraints(data.subrange(start, end), offset, count, field_size)->Ok_0.1,
        offset <= spec_read_constraints(
            data.subrange(start, end),
            offset,
            count,
            field_size,
        )->Ok_0.1,
    decreases count,
{
    if count > 0 {
        let window = data.subrange(start, end);
        lemma_read_constraints_in_window(data, start, end, offset, (count - 1) as nat, field_size);
        let next = spec_read_constraints(window, offset, (count - 1) as nat, field_size)->Ok_0.1;
        lemma_read_constraint_in_window(data, start, end, next, field_size);
    }
}

impl R1CS {
    /// Decodes a coefficient from its raw little-endian bytes. Zero bytes at
    /// the most significant end are dropped first; what is left is reduced
    /// modulo the field's prime, and nothing left is the additive identity.
    /// Whatever the padding, the element is the residue of the number that the
    /// bytes stand for.
    pub fn deserialize_fr(bytes: &[u8]) -> (element: Fr)
        ensures
            element@ == field_value(bytes@),
            (forall|i: int| 0 <= i < bytes@.len() ==> bytes@[i] == 0) ==> element@ == 0,
    {
        proof {
            if forall|i: int| 0 <= i < bytes@.len() ==> bytes@[i] == 0 {
                lemma_le_value_zeros(bytes@);
            }
        }
        let mut end: usize = bytes.len();
        proof {
            assert(bytes@.subrange(0, end as int) =~= bytes@);
        }
        while end > 0 && bytes[end - 1] == 0
            invariant
                end <= bytes.len(),
                le_value(bytes@.subrange(0, end as int)) == le_value(bytes@),
            decreases end,
        {
            proof {
                let shorter = bytes@.subrange(0, end - 1);
                assert(bytes@.subrange(0, end as int) =~= shorter.push(0u8));
                lemma_le_value_push_zero(shorter);
            }
            end = end - 1;
        }
        if end == 0 {
            Fr::zero()
        } else {
            Fr::from_le_bytes_mod_order(slice_subrange(bytes, 0, end))
        }
    }

    /// Decodes the header that begins at offset `pos` of the data.
    pub fn read_header_section(data: &[u8], pos: usize) -> (result: Result<R1CSHeader, ParseError>)
        ensures
            match result {
                Ok(header) => spec_read_header(data@, pos as int) == Ok::<HeaderView, ParseError>(
                    header@,
                ),
                Err(e) => spec_read_header(data@, pos as int) == Err::<HeaderView, ParseError>(e),
            },
    {
        let field_size = match read_u32_at(data, pos) {
            Some(v) => v,
            None => { return Err(ParseError::IOFailure); },
        };
        let left: usize = data.len() - pos - 4;
        if left < 28 || field_size as usize > left - 28 {
            return Err(ParseError::IOFailure);
        }
        let counts: usize = pos + 4 + field_size as usize;
        let prime_bytes = slice_to_vec(slice_subrange(data, pos + 4, counts));
        let n_wires = match read_u32_at(data, counts) {
            Some(v) => v,
            None => { return Err(ParseError::IOFailure); },
        };
        let n_pub_out = match read_u32_at(data, counts + 4) {
            Some(v) => v,
            None => { return Err(ParseError::IOFailure); },
        };
        let n_pub_in = match read_u32_at(data, counts + 8) {
            Some(v) => v,
            None => { return Err(ParseError::IOFailure); },
        };
        let n_prvt_in = match read_u32_at(data, counts + 12) {
            Some(v) => v,
            None => { return Err(ParseError::IOFailure); },
        };
        let _n_labels = match read_u64_at(data, counts + 16) {
            Some(v) => v,
            None => { return Err(ParseError::IOFailure); },
        };
        let n_constraints = match read_u32_at(data, counts + 24) {
            Some(v) => v,
            None => { return Err(ParseError::IOFailure); },
        };
        Ok(
            R1CSHeader {
                field_size,
                prime_bytes,
                n_wires,
                n_pub_out,
                n_pub_in,
                n_prvt_in,
                n_constraints,
            },
        )
    }

    /// Decodes the linear combination that begins at offset `pos` of the data,
    /// and hands it out with the offset behind it. Terms keep the order of the
    /// file; a wire that occurs twice gives two terms.
    pub fn read_linear_combination(data: &[u8], pos: usize, field_size: u32) -> (result: Result<
        (Vec<Term>, usize),
        ParseError,
    >)
        ensures
            match result {
                Ok((terms, end)) => {
                    &&& spec_read_linear_combination(data@, pos as int, field_size) == Ok::<
                        (Seq<TermView>, int),
                        ParseError,
                    >((terms_view(terms@), end as int))
                    &&& terms@.len() == u32_at(data@, pos as int)
                    &&& end == term_offset(pos + 4, terms@.len() as int, field_size)
                    &&& forall|i: int|
                        0 <= i < terms@.len() ==> #[trigger] terms_view(terms@)[i] == term_at(
                            data@,
                            term_offset(pos + 4, i, field_size),
                            field_size,
                        )
                },
                Err(e) => spec_read_linear_combination(data@, pos as int, field_size) == Err::<
                    (Seq<TermView>, int),
                    ParseError,
                >(e),
            },
    {
        let term_count = match read_u32_at(data, pos) {
            Some(v) => v,
            None => { return Err(ParseError::IOFailure); },
        };
        let total: usize = data.len();
        let start: usize = pos + 4;
        let mut terms: Vec<Term> = Vec::new();
        let mut cur: usize = start;
        let mut done: u32 = 0;
        proof {
            assert(terms_view(terms@) =~= Seq::<TermView>::empty());
        }
        while done < term_count
            invariant
                in_bounds(data@, pos as int, 4),
                term_count == u32_at(data@, pos as int),
                start == pos + 4,
                done <= term_count,
                total == data.len(),
                start <= cur <= total,
                spec_read_terms(data@, start as int, done as nat, field_size) == Ok::<
                    (Seq<TermView>, int),
                    ParseError,
                >((terms_view(terms@), cur as int)),
            decreases term_count - done,
        {
            let wire_id = match read_u32_at(data, cur) {
                Some(v) => v,
                None => {
                    proof {
                        lemma_read_terms_error_persists(
                            data@,
                            start as int,
                            (done + 1) as nat,
                            term_count as nat,
                            field_size,
                        );
                    }
                    return Err(ParseError::IOFailure);
                },
            };
            let coefficient_at: usize = cur + 4;
            if field_size as usize > total - coefficient_at {
                proof {
                    lemma_read_terms_error_persists(
                        data@,
                        start as int,
                        (done + 1) as nat,
                        term_count as nat,
                        field_size,
                    );
                }
                return Err(ParseError::FieldDecodeFailure);
            }
            let end: usize = coefficient_at + field_size as usize;
            let coefficient = R1CS::deserialize_fr(slice_subrange(data, coefficient_at, end));
            let term = Term { wire_id, coefficient };
            proof {
                assert(terms_view(terms@.push(term)) =~= terms_view(terms@).push(term@));
            }
            terms.push(term);
            cur = end;
            done = done + 1;
        }
        proof {
            lemma_read_terms_layout(data@, start as int, term_count as nat, field_size);
        }
        Ok((terms, cur))
    }

    /// Decodes the constraints that the header declares, from offset `pos` of
    /// the data on: for each the linear combinations A, B and C, in this order.
    pub fn read_constraint_section(data: &[u8], pos: usize, header: &R1CSHeader) -> (result: Result<
        Vec<R1CSConstraint>,
        ParseError,
    >)
        ensures
            match result {
                Ok(constraints) => {
                    &&& spec_read_constraints(
                        data@,
                        pos as int,
                        header.n_constraints as nat,
                        header.field_size,
                    ) is Ok
                    &&& spec_read_constraints(
                        data@,
                        pos as int,
                        header.n_constraints as nat,
                        header.field_size,
                    )->Ok_0.0 == constraints_view(constraints@)
                    &&& constraints@.len() == header.n_constraints
                },
                Err(e) => spec_read_constraints(
                    data@,
                    pos as int,
                    header.n_constraints as nat,
                    header.field_size,
                ) == Err::<(Seq<ConstraintView>, int), ParseError>(e),
            },
    {
        let count: u32 = header.n_constraints;
        let field_size: u32 = header.field_size;
        let mut constraints: Vec<R1CSConstraint> = Vec::new();
        let mut cur: usize = pos;
        let mut done: u32 = 0;
        proof {
            assert(constraints_view(constraints@) =~= Seq::<ConstraintView>::empty());
        }
        while done < count
            invariant
                count == header.n_constraints,
                field_size == header.field_size,
                done <= count,
                constraints@.len() == done,
                spec_read_constraints(data@, pos as int, done as nat, field_size) == Ok::<
                    (Seq<ConstraintView>, int),
                    ParseError,
                >((constraints_view(constraints@), cur as int)),
            decreases count - done,
        {
            let (a_terms, after_a) = match R1CS::read_linear_combination(data, cur, field_size) {
                Ok(v) => v,
                Err(e) => {
                    proof {
                        lemma_read_constraints_error_persists(
                            data@,
                            pos as int,
                            (done + 1) as nat,
                            count as nat,
                            field_size,
                        );
                    }
                    return Err(e);
                },
            };
            let (b_terms, after_b) = match R1CS::read_linear_combination(data, after_a, field_size) {
                Ok(v) => v,
                Err(e) => {
                    proof {
                        lemma_read_constraints_error_persists(
                            data@,
                            pos as int,
                            (done + 1) as nat,
                            count as nat,
                            field_size,
                        );
                    }
                    return Err(e);
                },
            };
            let (c_terms, after_c) = match R1CS::read_linear_combination(data, after_b, field_size) {
                Ok(v) => v,
                Err(e) => {
                    proof {
                        lemma_read_constraints_error_persists(
                            data@,
                            pos as int,
                            (done + 1) as nat,
                            count as nat,
                            field_size,
                        );
                    }
                    return Err(e);
                },
            };
            let constraint = R1CSConstraint { a_terms, b_terms, c_terms };
            proof {
                assert(constraints_view(constraints@.push(constraint)) =~= constraints_view(
                    constraints@,
                ).push(constraint@));
            }
            constraints.push(constraint);
            cur = after_c;
            done = done + 1;
        }
        Ok(constraints)
    }
}

} // verus!
