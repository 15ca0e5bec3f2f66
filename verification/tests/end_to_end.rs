use ark_ff::{One, PrimeField};
use r1cs_reader::{ParseError, R1CSConstraint, R1CSHeader, R1CS};

fn le32(v: u32) -> Vec<u8> {
    v.to_le_bytes().to_vec()
}

fn le64(v: u64) -> Vec<u8> {
    v.to_le_bytes().to_vec()
}

fn section(section_type: u32, body: &[u8]) -> Vec<u8> {
    let mut out = le32(section_type);
    out.extend(le64(body.len() as u64));
    out.extend_from_slice(body);
    out
}

fn container(sections: &[Vec<u8>]) -> Vec<u8> {
    let mut out = b"r1cs".to_vec();
    out.extend(le32(1));
    out.extend(le32(sections.len() as u32));
    for s in sections {
        out.extend_from_slice(s);
    }
    out
}

fn header_body(field_size: u32, prime: &[u8], counts: [u32; 4], n_labels: u64, n_constraints: u32) -> Vec<u8> {
    let mut out = le32(field_size);
    out.extend_from_slice(prime);
    for c in counts {
        out.extend(le32(c));
    }
    out.extend(le64(n_labels));
    out.extend(le32(n_constraints));
    out
}

fn padded(value: u8, field_size: usize) -> Vec<u8> {
    let mut out = vec![0u8; field_size];
    out[0] = value;
    out
}

fn combination(terms: &[(u32, Vec<u8>)]) -> Vec<u8> {
    let mut out = le32(terms.len() as u32);
    for (wire, coefficient) in terms {
        out.extend(le32(*wire));
        out.extend_from_slice(coefficient);
    }
    out
}

fn bls_prime_le() -> Vec<u8> {
    ark_bls12_381::Fr::MODULUS.0.iter().flat_map(|limb| limb.to_le_bytes()).collect()
}

fn gate_header(n_constraints: u32) -> Vec<u8> {
    header_body(32, &bls_prime_le(), [5, 1, 1, 0], 7, n_constraints)
}

fn gate(a: u32, b: u32, c: u32) -> Vec<u8> {
    let mut out = combination(&[(a, padded(1, 32))]);
    out.extend(combination(&[(b, padded(1, 32))]));
    out.extend(combination(&[(c, padded(1, 32))]));
    out
}

fn parts(document: &R1CS) -> (R1CSHeader, Vec<R1CSConstraint>) {
    let header = R1CSHeader {
        field_size: 32,
        prime_bytes: document.prime_field_modulus().to_vec(),
        n_wires: document.num_wires(),
        n_pub_out: document.num_public_outputs(),
        n_pub_in: document.num_public_inputs(),
        n_prvt_in: document.num_private_inputs(),
        n_constraints: document.num_constraints(),
    };
    (header, document.constraints().clone())
}

#[test]
fn multiplication_gate_is_read() {
    let file = container(&[section(1, &gate_header(1)), section(2, &gate(1, 2, 3))]);

    let document = R1CS::read(&file).unwrap();
    assert_eq!(document.num_wires(), 5);
    assert_eq!(document.num_public_outputs(), 1);
    assert_eq!(document.num_public_inputs(), 1);
    assert_eq!(document.num_private_inputs(), 0);
    assert_eq!(document.num_constraints(), 1);
    assert_eq!(document.prime_field_modulus(), &bls_prime_le()[..]);
    assert_eq!(document.constraints().len(), 1);

    let one = ark_bls12_381::Fr::one().into_bigint().0;
    let constraint = &document.constraints()[0];
    assert_eq!(constraint.a_terms.len(), 1);
    assert_eq!(constraint.b_terms.len(), 1);
    assert_eq!(constraint.c_terms.len(), 1);
    assert_eq!(constraint.a_terms[0].wire_id, 1);
    assert_eq!(constraint.b_terms[0].wire_id, 2);
    assert_eq!(constraint.c_terms[0].wire_id, 3);
    assert_eq!(constraint.a_terms[0].coefficient.into_bigint(), one);
    assert_eq!(constraint.b_terms[0].coefficient.into_bigint(), one);
    assert_eq!(constraint.c_terms[0].coefficient.into_bigint(), one);
    assert_eq!(constraint.to_string(), "(1·x1) · (1·x2) = 1·x3");
}

#[test]
fn constraints_come_in_file_order_and_in_declared_number() {
    let mut body = gate(1, 2, 3);
    body.extend(gate(4, 5, 6));
    body.extend(gate(7, 8, 9));
    let file = container(&[section(1, &gate_header(3)), section(2, &body)]);

    let document = R1CS::read(&file).unwrap();
    assert_eq!(document.num_constraints(), 3);
    assert_eq!(document.constraints().len(), 3);
    let wires: Vec<(u32, u32, u32)> = document
        .constraints()
        .iter()
        .map(|c| (c.a_terms[0].wire_id, c.b_terms[0].wire_id, c.c_terms[0].wire_id))
        .collect();
    assert_eq!(wires, vec![(1, 2, 3), (4, 5, 6), (7, 8, 9)]);
}

#[test]
fn records_behind_the_declared_count_are_not_read() {
    let mut body = gate(1, 2, 3);
    body.extend(gate(4, 5, 6));
    let file = container(&[section(1, &gate_header(1)), section(2, &body)]);

    let document = R1CS::read(&file).unwrap();
    assert_eq!(document.constraints().len(), 1);
    assert_eq!(document.constraints()[0].c_terms[0].wire_id, 3);
}

#[test]
fn section_order_does_not_matter() {
    let mut body = gate(1, 2, 3);
    body.extend(gate(3, 4, 5));
    let header_first = container(&[section(1, &gate_header(2)), section(2, &body)]);
    let constraints_first = container(&[section(2, &body), section(1, &gate_header(2))]);
    assert_ne!(header_first, constraints_first);

    let a = R1CS::read(&header_first).unwrap();
    let b = R1CS::read(&constraints_first).unwrap();
    assert_eq!(parts(&a), parts(&b));
    assert_eq!(b.constraints().len(), 2);
    assert_eq!(b.constraints()[1].a_terms[0].wire_id, 3);
}

#[test]
fn section_order_does_not_matter_among_other_sections() {
    let body = gate(1, 2, 3);
    let labels = section(3, &[9, 9, 9, 9, 9]);
    let custom = section(0x1234, &[]);
    let a = container(&[labels.clone(), section(1, &gate_header(1)), custom.clone(), section(2, &body)]);
    let b = container(&[labels, section(2, &body), custom, section(1, &gate_header(1))]);

    let a = R1CS::read(&a).unwrap();
    let b = R1CS::read(&b).unwrap();
    assert_eq!(parts(&a), parts(&b));
    assert_eq!(a.constraints().len(), 1);
}

#[test]
fn header_that_reaches_past_its_section_is_read_from_what_follows() {
    // The header section declares no body at all: the header is then decoded
    // from the bytes behind it, which here are those of the next section.
    let full = gate_header(0);
    let mut file = b"r1cs".to_vec();
    file.extend(le32(1));
    file.extend(le32(2));
    file.extend(le32(1));
    file.extend(le64(0));
    file.extend(section(9, &full[12..]));
    // The twelve bytes of the next section's head stand where the header's
    // first twelve bytes are expected: field size 9, then a prime of 9 bytes.
    let document = R1CS::read(&file);
    let swapped = {
        let mut out = b"r1cs".to_vec();
        out.extend(le32(1));
        out.extend(le32(2));
        out.extend(section(9, &full[12..]));
        out.extend(le32(1));
        out.extend(le64(0));
        out
    };
    assert!(document.is_ok());
    assert_eq!(R1CS::read(&swapped).err(), Some(ParseError::IOFailure));
}

#[test]
fn first_header_section_is_the_one_that_counts() {
    let first = header_body(32, &bls_prime_le(), [5, 1, 1, 0], 0, 0);
    let second = header_body(32, &bls_prime_le(), [99, 9, 9, 9], 0, 0);
    let file = container(&[section(1, &first), section(1, &second)]);
    let document = R1CS::read(&file).unwrap();
    assert_eq!(document.num_wires(), 5);
    assert_eq!(document.num_public_outputs(), 1);
}

#[test]
fn first_constraints_section_is_the_one_that_counts() {
    let file = container(&[
        section(2, &gate(1, 2, 3)),
        section(1, &gate_header(1)),
        section(2, &gate(4, 5, 6)),
    ]);
    let document = R1CS::read(&file).unwrap();
    assert_eq!(document.constraints().len(), 1);
    assert_eq!(document.constraints()[0].a_terms[0].wire_id, 1);
}

#[test]
fn missing_constraints_section_gives_no_constraints() {
    let file = container(&[section(1, &gate_header(4))]);
    let document = R1CS::read(&file).unwrap();
    assert_eq!(document.num_constraints(), 4);
    assert!(document.constraints().is_empty());
}

#[test]
fn strict_read_wants_the_constraints_section() {
    let file = container(&[section(1, &gate_header(4))]);
    assert_eq!(R1CS::read_strict(&file).err(), Some(ParseError::MissingConstraintsSection));

    let none_declared = container(&[section(1, &gate_header(0))]);
    let document = R1CS::read_strict(&none_declared).unwrap();
    assert!(document.constraints().is_empty());

    let complete = container(&[section(2, &gate(1, 2, 3)), section(1, &gate_header(1))]);
    let document = R1CS::read_strict(&complete).unwrap();
    assert_eq!(document.constraints().len(), 1);
}

#[test]
fn wrong_magic_is_refused_whatever_follows() {
    let mut file = container(&[section(1, &gate_header(0))]);
    file[0] = b'R';
    assert_eq!(R1CS::read(&file).err(), Some(ParseError::BadMagic));
    assert_eq!(R1CS::read(b"r1cx").err(), Some(ParseError::BadMagic));
    assert_eq!(R1CS::read(b"abcd\x02\x00\x00\x00").err(), Some(ParseError::BadMagic));
    assert_eq!(R1CS::read_strict(b"xxxx").err(), Some(ParseError::BadMagic));
}

#[test]
fn version_two_is_refused() {
    let mut file = container(&[section(1, &gate_header(0))]);
    file[4] = 2;
    assert_eq!(R1CS::read(&file).err(), Some(ParseError::UnsupportedVersion(2)));
    assert_eq!(R1CS::read(b"r1cs\x00\x00\x00\x00").err(), Some(ParseError::UnsupportedVersion(0)));
    assert_eq!(
        R1CS::read(b"r1cs\x01\x01\x00\x00").err(),
        Some(ParseError::UnsupportedVersion(257))
    );
}

#[test]
fn missing_header_section_is_refused() {
    assert_eq!(R1CS::read(&container(&[])).err(), Some(ParseError::MissingHeaderSection));
    let only_constraints = container(&[section(2, &gate(1, 2, 3))]);
    assert_eq!(R1CS::read(&only_constraints).err(), Some(ParseError::MissingHeaderSection));
    let others = container(&[section(3, &[1, 2, 3]), section(2, &[0xff; 5]), section(0, &[])]);
    assert_eq!(R1CS::read(&others).err(), Some(ParseError::MissingHeaderSection));
    assert_eq!(R1CS::read_strict(&others).err(), Some(ParseError::MissingHeaderSection));
}

#[test]
fn data_that_ends_early_is_refused() {
    let file = container(&[section(1, &gate_header(1)), section(2, &gate(1, 2, 3))]);
    assert_eq!(R1CS::read(&[]).err(), Some(ParseError::IOFailure));
    assert_eq!(R1CS::read(b"r1c").err(), Some(ParseError::IOFailure));
    assert_eq!(R1CS::read(&file[..4]).err(), Some(ParseError::IOFailure));
    assert_eq!(R1CS::read(&file[..7]).err(), Some(ParseError::IOFailure));
    assert_eq!(R1CS::read(&file[..8]).err(), Some(ParseError::IOFailure));
    assert_eq!(R1CS::read(&file[..11]).err(), Some(ParseError::IOFailure));
    // The table declares two sections: the head of the first is cut.
    assert_eq!(R1CS::read(&file[..12]).err(), Some(ParseError::IOFailure));
    assert_eq!(R1CS::read(&file[..23]).err(), Some(ParseError::IOFailure));
    // The body of a section is cut.
    assert_eq!(R1CS::read(&file[..24]).err(), Some(ParseError::TruncatedSection));
    assert_eq!(R1CS::read(&file[..file.len() - 1]).err(), Some(ParseError::TruncatedSection));
    assert!(R1CS::read(&file).is_ok());
}

#[test]
fn header_that_is_cut_is_refused() {
    let full = gate_header(0);
    for cut in 0..full.len() {
        let file = container(&[section(1, &full[..cut])]);
        assert_eq!(R1CS::read(&file).err(), Some(ParseError::IOFailure), "cut at {}", cut);
    }
    assert!(R1CS::read(&container(&[section(1, &full)])).is_ok());
}

#[test]
fn constraints_that_are_cut_are_refused() {
    let body = gate(1, 2, 3);
    // One combination is 4 + 4 + 32 bytes: a count, a wire and a coefficient.
    for cut in 0..body.len() {
        let file = container(&[section(1, &gate_header(1)), section(2, &body[..cut])]);
        let within = cut % 40;
        let expected = if within < 8 { ParseError::IOFailure } else { ParseError::FieldDecodeFailure };
        assert_eq!(R1CS::read(&file).err(), Some(expected), "cut at {}", cut);
    }
}
