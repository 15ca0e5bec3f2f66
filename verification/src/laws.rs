//! What holds of every container and of every coefficient, proved from the
//! definitions that the contracts of the reader use.

use vstd::prelude::*;

use crate::bytes::{
    le_value, lemma_le_value_fits, lemma_le_value_push_zero, lemma_le_value_zeros,
    lemma_window_range, u32_at, u64_at,
};
use crate::decode::{
    lemma_read_constraints_in_window, lemma_read_header_in_window, lemma_read_terms_layout,
    spec_read_constraint, spec_read_constraints, spec_read_header, spec_read_linear_combination,
    term_at, term_offset,
};
use crate::document::spec_read_with;
use crate::error::ParseError;
use crate::field::{field_value, modulus};
use crate::model::{R1CSView, TermView};
use crate::scanner::{
    first_of_type, first_of_type_from, has_magic, lemma_scanned_sections_in_bounds,
    spec_scan_sections, spec_scan_table, SectionView, CONSTRAINTS_SECTION, HEADER_SECTION,
    SUPPORTED_VERSION,
};

verus! {

/// The bytes of a section's body.
pub open spec fn section_body(data: Seq<u8>, section: SectionView) -> Seq<u8> {
    data.subrange(section.position, section.position + section.size)
}

/// What a read makes of a header body and, where there is one, a constraints
/// body, each decoded by itself.
pub open spec fn spec_read_bodies(
    header_body: Seq<u8>,
    constraints_body: Option<Seq<u8>>,
    strict: bool,
) -> Result<R1CSView, ParseError> {
    match spec_read_header(header_body, 0) {
        Err(e) => Err(e),
        Ok(header) => match constraints_body {
            None => if strict && header.n_constraints > 0 {
                Err(ParseError::MissingConstraintsSection)
            } else {
                Ok(R1CSView { header, constraints: Seq::empty() })
            },
            Some(body) => match spec_read_constraints(
                body,
                0,
                header.n_constraints as nat,
                header.field_size,
            ) {
                Err(e) => Err(e),
                Ok((constraints, _)) => Ok(R1CSView { header, constraints }),
            },
        },
    }
}

/// The body of the first section of the given type, where the table has one.
pub open spec fn first_body(data: Seq<u8>, sections: Seq<SectionView>, section_type: u32) -> Option<
    Seq<u8>,
> {
    match first_of_type(sections, section_type) {
        None => None,
        Some(i) => Some(section_body(data, sections[i])),
    }
}

/// The index that `first_of_type_from` gives is that of a section of the type,
/// at or after the start, with no section of the type between the two; it
/// gives none exactly when no section of the type stands at or after the start.
pub proof fn lemma_first_of_type_from(sections: Seq<SectionView>, section_type: u32, start: int)
    requires
        0 <= start,
    ensures
        match first_of_type_from(sections, section_type, start) {
            Some(i) => {
                &&& start <= i < sections.len()
                &&& sections[i].section_type == section_type
                &&& forall|j: int| start <= j < i ==> sections[j].section_type != section_type
            },
            None => forall|j: int|
                start <= j < sections.len() ==> sections[j].section_type != section_type,
        },
    decreases sections.len() - start,
{
    if start < sections.len() && sections[start].section_type != section_type {
        lemma_first_of_type_from(sections, section_type, start + 1);
    }
}

/// A section of the type with no section of the type before it is the one
/// that `first_of_type` finds.
pub proof fn lemma_first_of_type_is(sections: Seq<SectionView>, section_type: u32, i: int)
    requires
        0 <= i < sections.len(),
        sections[i].section_type == section_type,
        forall|j: int| 0 <= j < i ==> sections[j].section_type != section_type,
    ensures
        first_of_type(sections, section_type) == Some(i),
{
    lemma_first_of_type_from(sections, section_type, 0);
}

/// A document that was read from a container with a constraints section
/// holds exactly as many constraints as its header declares.
pub proof fn law_constraint_count(data: Seq<u8>, strict: bool)
    requires
        spec_read_with(data, strict) is Ok,
        first_of_type(spec_scan_sections(data)->Ok_0, CONSTRAINTS_SECTION) is Some,
    ensures
        spec_read_with(data, strict)->Ok_0.constraints.len() == spec_read_with(
            data,
            strict,
        )->Ok_0.header.n_constraints,
{
    let sections = spec_scan_sections(data)->Ok_0;
    let h: int = first_of_type(sections, HEADER_SECTION)->Some_0;
    let c: int = first_of_type(sections, CONSTRAINTS_SECTION)->Some_0;
    let header = spec_read_header(data, sections[h].position)->Ok_0;
    law_constraints_in_file_order(
        data,
        sections[c].position,
        header.n_constraints as nat,
        header.field_size,
    );
}

/// Constraints come in file order: of `count` constraints that were read, the
/// one at index `i` is the record that begins where the first `i` records end.
pub proof fn law_constraints_in_file_order(data: Seq<u8>, pos: int, count: nat, field_size: u32)
    requires
        spec_read_constraints(data, pos, count, field_size) is Ok,
    ensures
        spec_read_constraints(data, pos, count, field_size)->Ok_0.0.len() == count,
        forall|i: int|
            #![trigger spec_read_constraints(data, pos, i as nat, field_size)]
            0 <= i < count ==> {
                &&& spec_read_constraints(data, pos, i as nat, field_size) is Ok
                &&& spec_read_constraint(
                    data,
                    spec_read_constraints(data, pos, i as nat, field_size)->Ok_0.1,
                    field_size,
                ) is Ok
                &&& spec_read_constraints(data, pos, count, field_size)->Ok_0.0[i]
                    == spec_read_constraint(
                    data,
                    spec_read_constraints(data, pos, i as nat, field_size)->Ok_0.1,
                    field_size,
                )->Ok_0.0
            },
    decreases count,
{
    if count > 0 {
        law_constraints_in_file_order(data, pos, (count - 1) as nat, field_size);
    }
}

/// Whether the term was decoded from some place in the data with the given
/// field size: its coefficient is the element that `field_size` bytes of the
/// data decode to.
pub open spec fn decoded_with(data: Seq<u8>, field_size: u32, term: TermView) -> bool {
    exists|p: int|
        0 <= p && p + 4 + field_size <= data.len() && term == #[trigger] term_at(
            data,
            p,
            field_size,
        )
}

/// Whether every term of the combination was decoded with the given field size.
pub open spec fn all_decoded_with(data: Seq<u8>, field_size: u32, terms: Seq<TermView>) -> bool {
    forall|j: int| 0 <= j < terms.len() ==> decoded_with(data, field_size, #[trigger] terms[j])
}

/// Every term of a linear combination that was read was decoded with the
/// field size that the read was given.
pub proof fn lemma_combination_field_size(data: Seq<u8>, pos: int, field_size: u32)
    requires
        spec_read_linear_combination(data, pos, field_size) is Ok,
    ensures
        all_decoded_with(
            data,
            field_size,
            spec_read_linear_combination(data, pos, field_size)->Ok_0.0,
        ),
{
    let count = u32_at(data, pos) as nat;
    let terms = spec_read_linear_combination(data, pos, field_size)->Ok_0.0;
    lemma_read_terms_layout(data, pos + 4, count, field_size);
    assert forall|j: int| 0 <= j < terms.len() implies decoded_with(
        data,
        field_size,
        #[trigger] terms[j],
    ) by {
        let width: int = 4 + field_size;
        let p = term_offset(pos + 4, j, field_size);
        assert(0 <= j * width && (j + 1) * width <= count * width) by (nonlinear_arith)
            requires
                0 <= j < count,
                width >= 0,
        ;
        assert((j + 1) * width == j * width + width) by (nonlinear_arith);
        assert(terms[j] == term_at(data, p, field_size));
    }
}

/// Every coefficient of a document was decoded with the field size that the
/// document's header records.
pub proof fn law_one_field_size(data: Seq<u8>, strict: bool)
    requires
        spec_read_with(data, strict) is Ok,
    ensures
        forall|i: int|
            0 <= i < spec_read_with(data, strict)->Ok_0.constraints.len() ==> {
                let field_size = spec_read_with(data, strict)->Ok_0.header.field_size;
                let constraint = #[trigger] spec_read_with(data, strict)->Ok_0.constraints[i];
                &&& all_decoded_with(data, field_size, constraint.a_terms)
                &&& all_decoded_with(data, field_size, constraint.b_terms)
                &&& all_decoded_with(data, field_size, constraint.c_terms)
            },
{
    let document = spec_read_with(data, strict)->Ok_0;
    let sections = spec_scan_sections(data)->Ok_0;
    if first_of_type(sections, CONSTRAINTS_SECTION) is Some {
        let c: int = first_of_type(sections, CONSTRAINTS_SECTION)->Some_0;
        let pos = sections[c].position;
        let count = document.header.n_constraints as nat;
        let field_size = document.header.field_size;
        law_constraints_in_file_order(data, pos, count, field_size);
        assert forall|i: int| 0 <= i < document.constraints.len() implies {
            let constraint = #[trigger] document.constraints[i];
            &&& all_decoded_with(data, field_size, constraint.a_terms)
            &&& all_decoded_with(data, field_size, constraint.b_terms)
            &&& all_decoded_with(data, field_size, constraint.c_terms)
        } by {
            let at = spec_read_constraints(data, pos, i as nat, field_size)->Ok_0.1;
            lemma_combination_field_size(data, at, field_size);
            let after_a = spec_read_linear_combination(data, at, field_size)->Ok_0.1;
            lemma_combination_field_size(data, after_a, field_size);
            let after_b = spec_read_linear_combination(data, after_a, field_size)->Ok_0.1;
            lemma_combination_field_size(data, after_b, field_size);
        }
    }
}

/// The document is decided by the body of the first header section and the
/// body of the first constraints section, wherever the two lie and whatever
/// else the container holds, as long as each of the two can be decoded from
/// its own bytes: a header or a constraint that reaches past the end of its
/// section is decoded from what follows the section in the file.
pub proof fn law_bodies_decide(data: Seq<u8>, strict: bool)
    requires
        spec_scan_sections(data) is Ok,
        first_body(data, spec_scan_sections(data)->Ok_0, HEADER_SECTION) is Some,
        spec_read_bodies(
            first_body(data, spec_scan_sections(data)->Ok_0, HEADER_SECTION)->Some_0,
            first_body(data, spec_scan_sections(data)->Ok_0, CONSTRAINTS_SECTION),
            false,
        ) is Ok,
    ensures
        spec_read_with(data, strict) == spec_read_bodies(
            first_body(data, spec_scan_sections(data)->Ok_0, HEADER_SECTION)->Some_0,
            first_body(data, spec_scan_sections(data)->Ok_0, CONSTRAINTS_SECTION),
            strict,
        ),
{
    let sections = spec_scan_sections(data)->Ok_0;
    lemma_scanned_sections_in_bounds(data);
    lemma_first_of_type_from(sections, HEADER_SECTION, 0);
    lemma_first_of_type_from(sections, CONSTRAINTS_SECTION, 0);
    let h: int = first_of_type(sections, HEADER_SECTION)->Some_0;
    let hs = sections[h];
    assert(spec_read_header(section_body(data, hs), 0) is Ok);
    lemma_read_header_in_window(data, hs.position, hs.position + hs.size);
    let header = spec_read_header(data, hs.position)->Ok_0;
    if first_of_type(sections, CONSTRAINTS_SECTION) is Some {
        let c: int = first_of_type(sections, CONSTRAINTS_SECTION)->Some_0;
        let cs = sections[c];
        assert(spec_read_constraints(
            section_body(data, cs),
            0,
            header.n_constraints as nat,
            header.field_size,
        ) is Ok);
        lemma_read_constraints_in_window(
            data,
            cs.position,
            cs.position + cs.size,
            0,
            header.n_constraints as nat,
            header.field_size,
        );
    }
}

/// Two containers whose first header sections have the same body, and whose
/// first constraints sections have the same body or are both missing, give
/// the same document, as long as each of the two bodies can be decoded from
/// its own bytes.
pub proof fn law_same_bodies_same_document(a: Seq<u8>, b: Seq<u8>, strict: bool)
    requires
        spec_scan_sections(a) is Ok,
        spec_scan_sections(b) is Ok,
        first_body(a, spec_scan_sections(a)->Ok_0, HEADER_SECTION) is Some,
        first_body(a, spec_scan_sections(a)->Ok_0, HEADER_SECTION) == first_body(
            b,
            spec_scan_sections(b)->Ok_0,
            HEADER_SECTION,
        ),
        first_body(a, spec_scan_sections(a)->Ok_0, CONSTRAINTS_SECTION) == first_body(
            b,
            spec_scan_sections(b)->Ok_0,
            CONSTRAINTS_SECTION,
        ),
        spec_read_bodies(
            first_body(a, spec_scan_sections(a)->Ok_0, HEADER_SECTION)->Some_0,
            first_body(a, spec_scan_sections(a)->Ok_0, CONSTRAINTS_SECTION),
            false,
        ) is Ok,
    ensures
        spec_read_with(a, strict) == spec_read_with(b, strict),
{
    law_bodies_decide(a, strict);
    law_bodies_decide(b, strict);
}

/// The bytes of the parts, one behind the other.
pub open spec fn joined(parts: Seq<Seq<u8>>) -> Seq<u8>
    decreases parts.len(),
{
    if parts.len() == 0 {
        Seq::empty()
    } else {
        joined(parts.drop_last()) + parts.last()
    }
}

/// Whether the bytes are one whole section: a type tag, the length of the
/// body, and a body of that length.
pub open spec fn is_section(part: Seq<u8>) -> bool {
    part.len() >= 12 && u64_at(part, 4) == part.len() - 12
}

/// Whether the data is a container that holds the given sections, in this
/// order, and nothing else.
pub open spec fn holds_sections(data: Seq<u8>, parts: Seq<Seq<u8>>) -> bool {
    &&& data.len() >= 12
    &&& has_magic(data)
    &&& u32_at(data, 4) == SUPPORTED_VERSION
    &&& u32_at(data, 8) == parts.len()
    &&& data.subrange(12, data.len() as int) == joined(parts)
    &&& forall|k: int| 0 <= k < parts.len() ==> is_section(#[trigger] parts[k])
}

/// The first `k` parts, joined, are the beginning of all parts, joined.
pub proof fn lemma_joined_prefix(parts: Seq<Seq<u8>>, k: int)
    requires
        0 <= k <= parts.len(),
    ensures
        joined(parts.take(k)).len() <= joined(parts).len(),
        joined(parts).subrange(0, joined(parts.take(k)).len() as int) == joined(parts.take(k)),
    decreases parts.len(),
{
    if k == parts.len() {
        assert(parts.take(k) =~= parts);
        assert(joined(parts).subrange(0, joined(parts).len() as int) =~= joined(parts));
    } else {
        assert(parts.drop_last().take(k) =~= parts.take(k));
        lemma_joined_prefix(parts.drop_last(), k);
        assert(joined(parts).subrange(0, joined(parts.take(k)).len() as int) =~= joined(
            parts.drop_last(),
        ).subrange(0, joined(parts.take(k)).len() as int));
    }
}

/// The walk over a container that holds the given sections finds them all:
/// each with its type tag, and with its body where the section's own bytes
/// have it.
pub proof fn lemma_scan_of_sections(data: Seq<u8>, parts: Seq<Seq<u8>>, k: nat)
    requires
        holds_sections(data, parts),
        k <= parts.len(),
    ensures
        spec_scan_table(data, k) is Ok,
        spec_scan_table(data, k)->Ok_0.0.len() == k,
        spec_scan_table(data, k)->Ok_0.1 == 12 + joined(parts.take(k as int)).len(),
        forall|m: int|
            0 <= m < k ==> {
                let s = #[trigger] spec_scan_table(data, k)->Ok_0.0[m];
                &&& s.section_type == u32_at(parts[m], 0)
                &&& section_body(data, s) == parts[m].subrange(12, parts[m].len() as int)
            },
    decreases k,
{
    if k == 0 {
        assert(parts.take(0) =~= Seq::<Seq<u8>>::empty());
    } else {
        lemma_scan_of_sections(data, parts, (k - 1) as nat);
        let before = spec_scan_table(data, (k - 1) as nat)->Ok_0;
        let part = parts[k - 1];
        let pos: int = before.1;
        assert(parts.take(k as int).drop_last() =~= parts.take(k - 1));
        assert(parts.take(k as int).last() == part);
        assert(joined(parts.take(k as int)) == joined(parts.take(k - 1)) + part);
        lemma_joined_prefix(parts, k as int);
        let all = data.subrange(12, data.len() as int);
        assert(data.subrange(pos, pos + part.len()) =~= all.subrange(
            0,
            joined(parts.take(k as int)).len() as int,
        ).subrange(pos - 12, pos - 12 + part.len()));
        assert(data.subrange(pos, pos + part.len()) =~= part);
        lemma_window_range(data, pos, pos + part.len(), 0, 4);
        lemma_window_range(data, pos, pos + part.len(), 4, 12);
        lemma_window_range(data, pos, pos + part.len(), 12, part.len() as int);
        lemma_le_value_fits(part.subrange(4, 12));
        let after = spec_scan_table(data, k)->Ok_0;
        assert forall|m: int| 0 <= m < k implies {
            let s = #[trigger] after.0[m];
            &&& s.section_type == u32_at(parts[m], 0)
            &&& section_body(data, s) == parts[m].subrange(12, parts[m].len() as int)
        } by {
            if m < k - 1 {
                assert(after.0[m] == before.0[m]);
            }
        }
    }
}

/// Reading does not depend on the order of the sections: where a header
/// section and a constraints section change places in a container, each with
/// its own bytes unchanged, the document stays the same. The two are the
/// first of their types in both orders, and each can be decoded from its own
/// bytes.
pub proof fn law_section_order(
    a: Seq<u8>,
    b: Seq<u8>,
    parts: Seq<Seq<u8>>,
    i: int,
    j: int,
    strict: bool,
)
    requires
        0 <= i < parts.len(),
        0 <= j < parts.len(),
        holds_sections(a, parts),
        holds_sections(b, parts.update(i, parts[j]).update(j, parts[i])),
        u32_at(parts[i], 0) == HEADER_SECTION,
        u32_at(parts[j], 0) == CONSTRAINTS_SECTION,
        forall|k: int|
            0 <= k < parts.len() && (k < i || k < j) && k != i && k != j ==> u32_at(
                #[trigger] parts[k],
                0,
            ) != HEADER_SECTION && u32_at(parts[k], 0) != CONSTRAINTS_SECTION,
        spec_read_bodies(
            parts[i].subrange(12, parts[i].len() as int),
            Some(parts[j].subrange(12, parts[j].len() as int)),
            false,
        ) is Ok,
    ensures
        spec_read_with(a, strict) == spec_read_with(b, strict),
        spec_read_with(a, strict) == spec_read_bodies(
            parts[i].subrange(12, parts[i].len() as int),
            Some(parts[j].subrange(12, parts[j].len() as int)),
            strict,
        ),
{
    let swapped = parts.update(i, parts[j]).update(j, parts[i]);
    lemma_scan_of_sections(a, parts, parts.len());
    lemma_scan_of_sections(b, swapped, swapped.len());
    let sa = spec_scan_sections(a)->Ok_0;
    let sb = spec_scan_sections(b)->Ok_0;
    assert forall|k: int| 0 <= k < i implies sa[k].section_type != HEADER_SECTION by {
        assert(sa[k].section_type == u32_at(parts[k], 0));
    }
    assert forall|k: int| 0 <= k < j implies sa[k].section_type != CONSTRAINTS_SECTION by {
        assert(sa[k].section_type == u32_at(parts[k], 0));
    }
    assert forall|k: int| 0 <= k < j implies sb[k].section_type != HEADER_SECTION by {
        assert(sb[k].section_type == u32_at(swapped[k], 0));
    }
    assert forall|k: int| 0 <= k < i implies sb[k].section_type != CONSTRAINTS_SECTION by {
        assert(sb[k].section_type == u32_at(swapped[k], 0));
    }
    assert(sa[i].section_type == u32_at(parts[i], 0));
    assert(sa[j].section_type == u32_at(parts[j], 0));
    assert(sb[j].section_type == u32_at(swapped[j], 0));
    assert(sb[i].section_type == u32_at(swapped[i], 0));
    lemma_first_of_type_is(sa, HEADER_SECTION, i);
    lemma_first_of_type_is(sa, CONSTRAINTS_SECTION, j);
    lemma_first_of_type_is(sb, HEADER_SECTION, j);
    lemma_first_of_type_is(sb, CONSTRAINTS_SECTION, i);
    law_bodies_decide(a, strict);
    law_bodies_decide(b, strict);
}

/// Zero bytes at the most significant end of a coefficient do not change the
/// element that it decodes to.
pub proof fn law_zero_padding(bytes: Seq<u8>, padded: Seq<u8>)
    requires
        bytes.len() <= padded.len(),
        padded.subrange(0, bytes.len() as int) == bytes,
        forall|i: int| bytes.len() <= i < padded.len() ==> padded[i] == 0,
    ensures
        le_value(padded) == le_value(bytes),
        field_value(padded) == field_value(bytes),
    decreases padded.len() - bytes.len(),
{
    if bytes.len() < padded.len() {
        let shorter = padded.drop_last();
        assert(padded =~= shorter.push(0u8));
        lemma_le_value_push_zero(shorter);
        assert(shorter.subrange(0, bytes.len() as int) =~= bytes);
        law_zero_padding(bytes, shorter);
    } else {
        assert(padded =~= bytes);
    }
}

/// The number one, written in one byte or in any greater width with zero bytes
/// behind it, decodes to the element one.
pub proof fn law_one_in_any_width(padded: Seq<u8>)
    requires
        padded.len() >= 1,
        padded[0] == 1,
        forall|i: int| 1 <= i < padded.len() ==> padded[i] == 0,
    ensures
        field_value(padded) == 1,
        field_value(padded) == field_value(seq![1u8]),
{
    assert(padded.subrange(0, 1) =~= seq![1u8]);
    law_zero_padding(seq![1u8], padded);
    reveal_with_fuel(le_value, 2);
}

/// Coefficient bytes that are all zero decode to the additive identity,
/// whatever their number.
pub proof fn law_zero_bytes_are_zero(bytes: Seq<u8>)
    requires
        forall|i: int| 0 <= i < bytes.len() ==> bytes[i] == 0,
    ensures
        field_value(bytes) == 0,
{
    lemma_le_value_zeros(bytes);
}

/// Two encodings of numbers with the same residue modulo the field's prime
/// decode to the same element.
pub proof fn law_same_residue_same_element(a: Seq<u8>, b: Seq<u8>)
    requires
        le_value(a) % modulus() == le_value(b) % modulus(),
    ensures
        field_value(a) == field_value(b),
{
}

/// Data of four bytes or more that does not begin with the magic tag is
/// refused for that, whatever follows.
pub proof fn law_bad_magic(data: Seq<u8>, strict: bool)
    requires
        data.len() >= 4,
        !has_magic(data),
    ensures
        spec_scan_sections(data) == Err::<Seq<SectionView>, ParseError>(ParseError::BadMagic),
        spec_read_with(data, strict) == Err::<R1CSView, ParseError>(ParseError::BadMagic),
{
}

/// Data that begins with the magic tag and a version other than the supported
/// one is refused with that version, whatever follows.
pub proof fn law_unsupported_version(data: Seq<u8>, strict: bool)
    requires
        data.len() >= 8,
        has_magic(data),
        u32_at(data, 4) != SUPPORTED_VERSION,
    ensures
        spec_read_with(data, strict) == Err::<R1CSView, ParseError>(
            ParseError::UnsupportedVersion(u32_at(data, 4)),
        ),
{
}

/// A container whose section table holds no header section is refused for
/// that, whatever other sections it holds and whatever is in them.
pub proof fn law_missing_header(data: Seq<u8>, strict: bool)
    requires
        spec_scan_sections(data) is Ok,
        forall|i: int|
            0 <= i < spec_scan_sections(data)->Ok_0.len() ==> (#[trigger] spec_scan_sections(
                data,
            )->Ok_0[i]).section_type != HEADER_SECTION,
    ensures
        spec_read_with(data, strict) == Err::<R1CSView, ParseError>(
            ParseError::MissingHeaderSection,
        ),
{
    lemma_first_of_type_from(spec_scan_sections(data)->Ok_0, HEADER_SECTION, 0);
}

} // verus!
