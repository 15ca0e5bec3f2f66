//! The first pass over a container: its magic tag, its version and the table
//! of its sections, none of whose bodies is looked into.

use vstd::prelude::*;

use crate::bytes::{in_bounds, read_u32_at, read_u64_at, u32_at, u64_at};
use crate::error::ParseError;

verus! {

/// The one version of the container that is read.
pub const SUPPORTED_VERSION: u32 = 1;

/// The type tag of the section that holds the header.
pub const HEADER_SECTION: u32 = 1;

/// The type tag of the section that holds the constraints.
pub const CONSTRAINTS_SECTION: u32 = 2;

/// Where one section lies: its type tag, the offset of the first byte of its
/// body, and the length of the body.
#[derive(Clone, Copy, Debug, PartialEq, Eq, Structural)]
pub struct SectionInfo {
    pub section_type: u32,
    pub position: u64,
    pub size: u64,
}

/// A section descriptor as a mathematical value.
pub struct SectionView {
    pub section_type: u32,
    pub position: int,
    pub size: int,
}

impl View for SectionInfo {
    type V = SectionView;

    open spec fn view(&self) -> SectionView {
        SectionView {
            section_type: self.section_type,
            position: self.position as int,
            size: self.size as int,
        }
    }
}

/// The descriptors of a list as mathematical values, in their order.
pub open spec fn sections_view(sections: Seq<SectionInfo>) -> Seq<SectionView> {
    sections.map_values(|s: SectionInfo| s@)
}

/// Whether the data begins with the four bytes `r1cs`.
pub open spec fn has_magic(data: Seq<u8>) -> bool {
    data.len() >= 4 && data[0] == 0x72 && data[1] == 0x31 && data[2] == 0x63 && data[3] == 0x73
}

/// The section table after `count` sections have been walked, with the offset
/// at which the next section would begin. A section begins with its type tag
/// (four bytes) and the length of its body (eight bytes); its body follows, and
/// must end within the data.
pub open spec fn spec_scan_table(data: Seq<u8>, count: nat) -> Result<
    (Seq<SectionView>, int),
    ParseError,
>
    decreases count,
{
    if count == 0 {
        Ok((Seq::empty(), 12))
    } else {
        match spec_scan_table(data, (count - 1) as nat) {
            Err(e) => Err(e),
            Ok((sections, pos)) => {
                if !in_bounds(data, pos, 12) {
                    Err(ParseError::IOFailure)
                } else if pos + 12 + u64_at(data, pos + 4) > data.len() {
                    Err(ParseError::TruncatedSection)
                } else {
                    Ok(
                        (
                            sections.push(
                                SectionView {
                                    section_type: u32_at(data, pos),
                                    position: pos + 12,
                                    size: u64_at(data, pos + 4) as int,
                                },
                            ),
                            pos + 12 + u64_at(data, pos + 4),
                        ),
                    )
                }
            },
        }
    }
}

/// What the first pass makes of a container: the descriptors of its sections
/// in file order, whatever their types, or the first expectation that the
/// data does not meet.
pub open spec fn spec_scan_sections(data: Seq<u8>) -> Result<Seq<SectionView>, ParseError> {
    if data.len() < 4 {
        Err(ParseError::IOFailure)
    } else if !has_magic(data) {
        Err(ParseError::BadMagic)
    } else if data.len() < 8 {
        Err(ParseError::IOFailure)
    } else if u32_at(data, 4) != SUPPORTED_VERSION {
        Err(ParseError::UnsupportedVersion(u32_at(data, 4)))
    } else if data.len() < 12 {
        Err(ParseError::IOFailure)
    } else {
        match spec_scan_table(data, u32_at(data, 8) as nat) {
            Ok((sections, _)) => Ok(sections),
            Err(e) => Err(e),
        }
    }
}

/// The index of the first section of the given type at or after `start`.
pub open spec fn first_of_type_from(sections: Seq<SectionView>, section_type: u32, start: int) -> Option<
    int,
>
    decreases sections.len() - start,
{
    if start < 0 || start >= sections.len() {
        None
    } else if sections[start].section_type == section_type {
        Some(start)
    } else {
        first_of_type_from(sections, section_type, start + 1)
    }
}

/// The index of the first section of the given type, in file order.
pub open spec fn first_of_type(sections: Seq<SectionView>, section_type: u32) -> Option<int> {
    first_of_type_from(sections, section_type, 0)
}

/// Every section that the walk has recorded lies within the data behind the
/// table's head, and the walk stands within the data too.
pub proof fn lemma_scan_table_in_bounds(data: Seq<u8>, count: nat)
    requires
        spec_scan_table(data, count) is Ok,
    ensures
        spec_scan_table(data, count)->Ok_0.0.len() == count,
        12 <= spec_scan_table(data, count)->Ok_0.1,
        count > 0 ==> spec_scan_table(data, count)->Ok_0.1 <= data.len(),
        forall|i: int|
            0 <= i < count ==> {
                let s = #[trigger] spec_scan_table(data, count)->Ok_0.0[i];
                12 <= s.position && 0 <= s.size && s.position + s.size <= data.len()
            },
    decreases count,
{
    if count > 0 {
        lemma_scan_table_in_bounds(data, (count - 1) as nat);
        let before = spec_scan_table(data, (count - 1) as nat)->Ok_0;
        let after = spec_scan_table(data, count)->Ok_0;
        assert forall|i: int| 0 <= i < count implies {
            let s = #[trigger] after.0[i];
            12 <= s.position && 0 <= s.size && s.position + s.size <= data.len()
        } by {
            if i < count - 1 {
                assert(after.0[i] == before.0[i]);
            }
        }
    }
}

/// A walk that has failed stays failed, with the same error, however many
/// more sections the table declares.
pub proof fn lemma_scan_table_error_persists(data: Seq<u8>, failed: nat, count: nat)
    requires
        failed <= count,
        spec_scan_table(data, failed) is Err,
    ensures
        spec_scan_table(data, count) == spec_scan_table(data, failed),
    decreases count,
{
    if failed < count {
        lemma_scan_table_error_persists(data, failed, (count - 1) as nat);
    }
}

/// Every section of a table that was scanned lies within the data, behind
/// the table's head.
pub proof fn lemma_scanned_sections_in_bounds(data: Seq<u8>)
    requires
        spec_scan_sections(data) is Ok,
    ensures
        forall|i: int|
            0 <= i < spec_scan_sections(data)->Ok_0.len() ==> {
                let s = #[trigger] spec_scan_sections(data)->Ok_0[i];
                12 <= s.position && 0 <= s.size && s.position + s.size <= data.len()
            },
{
    lemma_scan_table_in_bounds(data, u32_at(data, 8) as nat);
}

/// Checks the magic tag and the version, then walks the section table and
/// records each section's type, offset and length, in file order. No body is
/// looked into, and a section of an unknown type is recorded like any other.
pub fn scan_sections(data: &[u8]) -> (result: Result<Vec<SectionInfo>, ParseError>)
    ensures
        match result {
            Ok(sections) => {
                &&& spec_scan_sections(data@) == Ok::<Seq<SectionView>, ParseError>(
                    sections_view(sections@),
                )
                &&& forall|i: int|
                    0 <= i < sections@.len() ==> 12 <= (#[trigger] sections@[i]).position
                        && sections@[i].position + sections@[i].size <= data@.len()
            },
            Err(e) => spec_scan_sections(data@) == Err::<Seq<SectionView>, ParseError>(e),
        },
{
    if data.len() < 4 {
        return Err(ParseError::IOFailure);
    }
    if data[0] != 0x72 || data[1] != 0x31 || data[2] != 0x63 || data[3] != 0x73 {
        return Err(ParseError::BadMagic);
    }
    let version = match read_u32_at(data, 4) {
        Some(v) => v,
        None => { return Err(ParseError::IOFailure); },
    };
    if version != SUPPORTED_VERSION {
        return Err(ParseError::UnsupportedVersion(version));
    }
    let num_sections = match read_u32_at(data, 8) {
        Some(n) => n,
        None => { return Err(ParseError::IOFailure); },
    };
    let mut sections: Vec<SectionInfo> = Vec::new();
    let mut pos: usize = 12;
    let mut walked: u32 = 0;
    proof {
        assert(sections_view(sections@) =~= Seq::<SectionView>::empty());
    }
    while walked < num_sections
        invariant
            has_magic(data@),
            data@.len() >= 12,
            u32_at(data@, 4) == SUPPORTED_VERSION,
            num_sections == u32_at(data@, 8),
            walked <= num_sections,
            12 <= pos <= data.len(),
            spec_scan_table(data@, walked as nat) == Ok::<(Seq<SectionView>, int), ParseError>(
                (sections_view(sections@), pos as int),
            ),
        decreases num_sections - walked,
    {
        if data.len() - pos < 12 {
            proof {
                lemma_scan_table_error_persists(
                    data@,
                    (walked + 1) as nat,
                    num_sections as nat,
                );
            }
            return Err(ParseError::IOFailure);
        }
        let section_type = match read_u32_at(data, pos) {
            Some(t) => t,
            None => { return Err(ParseError::IOFailure); },
        };
        let size = match read_u64_at(data, pos + 4) {
            Some(s) => s,
            None => { return Err(ParseError::IOFailure); },
        };
        let body: usize = pos + 12;
        if size > (data.len() - body) as u64 {
            proof {
                lemma_scan_table_error_persists(
                    data@,
                    (walked + 1) as nat,
                    num_sections as nat,
                );
            }
            return Err(ParseError::TruncatedSection);
        }
        let section = SectionInfo { section_type, position: body as u64, size };
        proof {
            assert(sections_view(sections@.push(section)) =~= sections_view(sections@).push(
                section@,
            ));
        }
        sections.push(section);
        pos = body + size as usize;
        walked = walked + 1;
    }
    proof {
        let views = sections_view(sections@);
        assert(spec_scan_sections(data@) == Ok::<Seq<SectionView>, ParseError>(views));
        lemma_scanned_sections_in_bounds(data@);
        assert forall|i: int| 0 <= i < sections@.len() implies 12 <= (
        #[trigger] sections@[i]).position && sections@[i].position + sections@[i].size
            <= data@.len() by {
            assert(views[i] == sections@[i]@);
            assert(views[i] == spec_scan_sections(data@)->Ok_0[i]);
        }
    }
    Ok(sections)
}

/// Finds the first section of the given type, in file order.
pub fn find_section(sections: &Vec<SectionInfo>, section_type: u32) -> (found: Option<usize>)
    ensures
        match found {
            Some(i) => i < sections@.len() && first_of_type(sections_view(sections@), section_type)
                == Some(i as int),
            None => first_of_type(sections_view(sections@), section_type) is None,
        },
{
    let mut i: usize = 0;
    while i < sections.len()
        invariant
            i <= sections.len(),
            first_of_type(sections_view(sections@), section_type) == first_of_type_from(
                sections_view(sections@),
                section_type,
                i as int,
            ),
        decreases sections.len() - i,
    {
        if sections[i].section_type == section_type {
            return Some(i);
        }
        i = i + 1;
    }
    None
}

} // verus!
