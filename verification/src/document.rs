//! The document: a header and its constraints, read in one call.

use vstd::prelude::*;

use crate::bytes::u32_at;
use crate::decode::{lemma_read_constraints_count, spec_read_constraints, spec_read_header};
use crate::error::ParseError;
use crate::model::{constraints_view, ConstraintView, R1CSConstraint, R1CSHeader, R1CSView};
use crate::scanner::{
    find_section, first_of_type, has_magic, scan_sections, sections_view, spec_scan_sections,
    CONSTRAINTS_SECTION, HEADER_SECTION, SUPPORTED_VERSION,
};
use crate::text::{info_string, info_text};

verus! {

/// What a read makes of the bytes of a container.
///
/// The section table is scanned first. The header is decoded from the first
/// header section of the table, wherever it lies in the file; the constraints
/// are decoded from the first constraints section, with the field size and the
/// count that the header gives. Later sections of either type, and sections of
/// other types, are passed over. Without a constraints section the document
/// has no constraints; a strict read takes that for an error where the header
/// declares any.
pub open spec fn spec_read_with(data: Seq<u8>, strict: bool) -> Result<R1CSView, ParseError> {
    match spec_scan_sections(data) {
        Err(e) => Err(e),
        Ok(sections) => match first_of_type(sections, HEADER_SECTION) {
            None => Err(ParseError::MissingHeaderSection),
            Some(h) => match spec_read_header(data, sections[h].position) {
                Err(e) => Err(e),
                Ok(header) => match first_of_type(sections, CONSTRAINTS_SECTION) {
                    None => if strict && header.n_constraints > 0 {
                        Err(ParseError::MissingConstraintsSection)
                    } else {
                        Ok(R1CSView { header, constraints: Seq::empty() })
                    },
                    Some(c) => match spec_read_constraints(
                        data,
                        sections[c].position,
                        header.n_constraints as nat,
                        header.field_size,
                    ) {
                        Err(e) => Err(e),
                        Ok((constraints, _)) => Ok(R1CSView { header, constraints }),
                    },
                },
            },
        },
    }
}

/// What the permissive read makes of the bytes of a container.
pub open spec fn spec_read(data: Seq<u8>) -> Result<R1CSView, ParseError> {
    spec_read_with(data, false)
}

/// What the strict read makes of the bytes of a container.
pub open spec fn spec_read_strict(data: Seq<u8>) -> Result<R1CSView, ParseError> {
    spec_read_with(data, true)
}

/// A document that was read holds as many constraints as its header declares
/// where the container has a constraints section, and none where it has not.
pub proof fn lemma_read_outcomes(data: Seq<u8>, strict: bool)
    ensures
        spec_read_with(data, strict) is Ok ==> spec_read_with(data, strict)->Ok_0.constraints.len()
            == if first_of_type(spec_scan_sections(data)->Ok_0, CONSTRAINTS_SECTION) is Some {
            spec_read_with(data, strict)->Ok_0.header.n_constraints as nat
        } else {
            0
        },
        spec_read_with(data, true) is Ok ==> spec_read_with(data, true)->Ok_0.constraints.len()
            == spec_read_with(data, true)->Ok_0.header.n_constraints,
{
    if spec_read_with(data, strict) is Ok || spec_read_with(data, true) is Ok {
        let sections = spec_scan_sections(data)->Ok_0;
        let h: int = first_of_type(sections, HEADER_SECTION)->Some_0;
        let header = spec_read_header(data, sections[h].position)->Ok_0;
        if first_of_type(sections, CONSTRAINTS_SECTION) is Some {
            let c: int = first_of_type(sections, CONSTRAINTS_SECTION)->Some_0;
            lemma_read_constraints_count(
                data,
                sections[c].position,
                header.n_constraints as nat,
                header.field_size,
            );
        }
    }
}

/// A rank-1 constraint system, as one container holds it. It is made by one
/// read and does not change afterwards. It holds either as many constraints
/// as its header declares, or none.
pub struct R1CS {
    pub(crate) header: R1CSHeader,
    pub(crate) constraints: Vec<R1CSConstraint>,
}

impl View for R1CS {
    type V = R1CSView;

    closed spec fn view(&self) -> R1CSView {
        R1CSView { header: self.header@, constraints: constraints_view(self.constraints@) }
    }
}

impl R1CS {
    #[verifier::type_invariant]
    spec fn all_or_none(self) -> bool {
        self.constraints@.len() == 0 || self.constraints@.len() == self.header.n_constraints
    }

    fn read_with(data: &[u8], strict: bool) -> (result: Result<R1CS, ParseError>)
        ensures
            match result {
                Ok(document) => spec_read_with(data@, strict) == Ok::<R1CSView, ParseError>(
                    document@,
                ),
                Err(e) => spec_read_with(data@, strict) == Err::<R1CSView, ParseError>(e),
            },
    {
        let sections = match scan_sections(data) {
            Ok(s) => s,
            Err(e) => { return Err(e); },
        };
        let header_at = match find_section(&sections, HEADER_SECTION) {
            Some(i) => i,
            None => { return Err(ParseError::MissingHeaderSection); },
        };
        let total: usize = data.len();
        let header_section = sections[header_at];
        proof {
            assert(sections_view(sections@)[header_at as int] == header_section@);
            assert(header_section.position <= total);
        }
        let header = match R1CS::read_header_section(data, header_section.position as usize) {
            Ok(h) => h,
            Err(e) => { return Err(e); },
        };
        let constraints = match find_section(&sections, CONSTRAINTS_SECTION) {
            None => {
                if strict && header.n_constraints > 0 {
                    return Err(ParseError::MissingConstraintsSection);
                }
                Vec::new()
            },
            Some(i) => {
                let constraints_section = sections[i];
                proof {
                    assert(sections_view(sections@)[i as int] == constraints_section@);
                    assert(constraints_section.position <= total);
                }
                match R1CS::read_constraint_section(
                    data,
                    constraints_section.position as usize,
                    &header,
                ) {
                    Ok(c) => c,
                    Err(e) => { return Err(e); },
                }
            },
        };
        proof {
            assert(constraints@.len() == 0 ==> constraints_view(constraints@)
                =~= Seq::<ConstraintView>::empty());
        }
        Ok(R1CS { header, constraints })
    }

    /// Reads a document from the bytes of a container.
    ///
    /// A missing constraints section is no error: the document then has no
    /// constraints, whatever count its header declares.
    pub fn read(data: &[u8]) -> (result: Result<R1CS, ParseError>)
        ensures
            match result {
                Ok(document) => spec_read(data@) == Ok::<R1CSView, ParseError>(document@),
                Err(e) => spec_read(data@) == Err::<R1CSView, ParseError>(e),
            },
            data@.len() >= 4 && !has_magic(data@) ==> result is Err && result->Err_0
                == ParseError::BadMagic,
            data@.len() >= 8 && has_magic(data@) && u32_at(data@, 4) != SUPPORTED_VERSION
                ==> result is Err && result->Err_0 == ParseError::UnsupportedVersion(
                u32_at(data@, 4),
            ),
            spec_scan_sections(data@) is Ok && first_of_type(
                spec_scan_sections(data@)->Ok_0,
                HEADER_SECTION,
            ) is None ==> result is Err && result->Err_0 == ParseError::MissingHeaderSection,
            result is Ok ==> result->Ok_0@.constraints.len() == if first_of_type(
                spec_scan_sections(data@)->Ok_0,
                CONSTRAINTS_SECTION,
            ) is Some {
                result->Ok_0@.header.n_constraints as nat
            } else {
                0
            },
    {
        proof {
            lemma_read_outcomes(data@, false);
        }
        R1CS::read_with(data, false)
    }

    /// Reads a document from the bytes of a container, and fails with
    /// `MissingConstraintsSection` where the header declares constraints and
    /// the section table holds no constraints section.
    pub fn read_strict(data: &[u8]) -> (result: Result<R1CS, ParseError>)
        ensures
            match result {
                Ok(document) => spec_read_strict(data@) == Ok::<R1CSView, ParseError>(document@),
                Err(e) => spec_read_strict(data@) == Err::<R1CSView, ParseError>(e),
            },
            result is Ok ==> result->Ok_0@.constraints.len()
                == result->Ok_0@.header.n_constraints,
    {
        proof {
            lemma_read_outcomes(data@, true);
        }
        R1CS::read_with(data, true)
    }

    /// The number of wires in the circuit.
    pub fn num_wires(&self) -> (n: u32)
        ensures
            n == self@.header.n_wires,
    {
        self.header.n_wires
    }

    /// The number of public outputs of the circuit.
    pub fn num_public_outputs(&self) -> (n: u32)
        ensures
            n == self@.header.n_pub_out,
    {
        self.header.n_pub_out
    }

    /// The number of public inputs of the circuit.
    pub fn num_public_inputs(&self) -> (n: u32)
        ensures
            n == self@.header.n_pub_in,
    {
        self.header.n_pub_in
    }

    /// The number of private inputs of the circuit.
    pub fn num_private_inputs(&self) -> (n: u32)
        ensures
            n == self@.header.n_prvt_in,
    {
        self.header.n_prvt_in
    }

    /// The number of constraints that the header declares.
    pub fn num_constraints(&self) -> (n: u32)
        ensures
            n == self@.header.n_constraints,
    {
        self.header.n_constraints
    }

    /// The raw bytes of the field's prime, as the header holds them.
    pub fn prime_field_modulus(&self) -> (bytes: &[u8])
        ensures
            bytes@ == self@.header.prime_bytes,
    {
        self.header.prime_bytes.as_slice()
    }

    /// A summary of the document for diagnostics, as lines of text: the counts
    /// of the header, the number of constraints that were read, the first
    /// eight bytes of the prime, the first three constraints, and how many
    /// more there are.
    pub fn info(&self) -> (text: String)
        ensures
            text@ == info_text(self@),
    {
        info_string(&self.header, &self.constraints)
    }

    /// The constraints of the circuit, in file order: as many as the header
    /// declares, or none.
    pub fn constraints(&self) -> (constraints: &Vec<R1CSConstraint>)
        ensures
            constraints_view(constraints@) == self@.constraints,
            constraints@.len() == 0 || constraints@.len() == self@.header.n_constraints,
    {
        proof {
            use_type_invariant(self);
        }
        &self.constraints
    }
}

} // verus!
