use ark_ff::PrimeField;
use r1cs_reader::text::{info_string, push_bytes, push_combination, push_decimal};
use r1cs_reader::{Fr, ParseError, R1CSConstraint, R1CSHeader, Term, R1CS};

fn term(wire_id: u32, coefficient: &[u8]) -> Term {
    Term { wire_id, coefficient: R1CS::deserialize_fr(coefficient) }
}

fn decimal(n: u64) -> String {
    let mut text = String::new();
    push_decimal(&mut text, n);
    text
}

#[test]
fn numbers_are_written_in_decimal() {
    assert_eq!(decimal(0), "0");
    assert_eq!(decimal(7), "7");
    assert_eq!(decimal(10), "10");
    assert_eq!(decimal(1234567890), "1234567890");
    assert_eq!(decimal(u64::MAX), "18446744073709551615");
    let mut text = String::from("n = ");
    push_decimal(&mut text, 405);
    assert_eq!(text, "n = 405");
}

#[test]
fn field_elements_are_written_in_decimal() {
    assert_eq!(Fr::zero().to_string(), "0");
    assert_eq!(R1CS::deserialize_fr(&[1]).to_string(), "1");
    assert_eq!(R1CS::deserialize_fr(&[0, 1]).to_string(), "256");
    assert_eq!(R1CS::deserialize_fr(&[0, 0, 0, 0, 0, 0, 0, 0, 1]).to_string(), "18446744073709551616");
    let mut largest = Vec::new();
    for limb in ark_bls12_381::Fr::MODULUS.0 {
        largest.extend(limb.to_le_bytes());
    }
    largest[0] -= 1;
    assert_eq!(
        R1CS::deserialize_fr(&largest).to_string(),
        "52435875175126190479447740508185965837690552500527637822603658699938581184512"
    );
    let bytes = [0x5au8; 48];
    assert_eq!(
        Fr::from_le_bytes_mod_order(&bytes).to_string(),
        ark_bls12_381::Fr::from_le_bytes_mod_order(&bytes).to_string()
    );
}

#[test]
fn terms_are_written_with_their_wire() {
    assert_eq!(term(3, &[5]).to_string(), "5·x3");
    assert_eq!(term(0, &[]).to_string(), "0·x0");
    assert_eq!(term(u32::MAX, &[0, 1]).to_string(), "256·x4294967295");
    let mut text = String::from("> ");
    term(12, &[9]).push_to(&mut text);
    assert_eq!(text, "> 9·x12");
}

#[test]
fn combinations_are_written_as_sums() {
    let mut text = String::new();
    push_combination(&mut text, &vec![]);
    assert_eq!(text, "0");

    let mut text = String::new();
    push_combination(&mut text, &vec![term(1, &[2])]);
    assert_eq!(text, "2·x1");

    let mut text = String::from("sum: ");
    push_combination(&mut text, &vec![term(1, &[2]), term(1, &[3]), term(4, &[0])]);
    assert_eq!(text, "sum: 2·x1 + 3·x1 + 0·x4");
}

#[test]
fn constraints_are_written_as_a_product_and_a_sum() {
    let constraint = R1CSConstraint {
        a_terms: vec![term(1, &[2]), term(2, &[3])],
        b_terms: vec![],
        c_terms: vec![term(3, &[1])],
    };
    assert_eq!(constraint.to_string(), "(2·x1 + 3·x2) · (0) = 1·x3");

    let empty = R1CSConstraint { a_terms: vec![], b_terms: vec![], c_terms: vec![] };
    assert_eq!(empty.to_string(), "(0) · (0) = 0");
}

#[test]
fn bytes_are_written_as_a_list() {
    let mut text = String::new();
    push_bytes(&mut text, &[]);
    assert_eq!(text, "[]");
    assert_eq!(text, format!("{:?}", Vec::<u8>::new()));

    let mut text = String::new();
    push_bytes(&mut text, &[7]);
    assert_eq!(text, "[7]");

    let bytes = [1u8, 0, 255, 16];
    let mut text = String::from("=");
    push_bytes(&mut text, &bytes);
    assert_eq!(text, "=[1, 0, 255, 16]");
    assert_eq!(text[1..], format!("{:?}", bytes));
}

#[test]
fn errors_say_what_failed() {
    assert_eq!(ParseError::IOFailure.to_string(), "Unexpected end of R1CS data");
    assert_eq!(ParseError::BadMagic.to_string(), "Invalid R1CS file: wrong magic bytes");
    assert_eq!(ParseError::UnsupportedVersion(2).to_string(), "Unsupported R1CS version: 2");
    assert_eq!(
        ParseError::UnsupportedVersion(u32::MAX).to_string(),
        "Unsupported R1CS version: 4294967295"
    );
    assert_eq!(ParseError::MissingHeaderSection.to_string(), "R1CS file is missing header section");
    assert_eq!(ParseError::FieldDecodeFailure.to_string(), "Failed to deserialize field element");
    assert_eq!(
        ParseError::TruncatedSection.to_string(),
        "R1CS section reaches past the end of the data"
    );
    assert_eq!(
        ParseError::MissingConstraintsSection.to_string(),
        "R1CS file is missing constraints section"
    );
}

fn header(prime_bytes: Vec<u8>, n_constraints: u32) -> R1CSHeader {
    R1CSHeader {
        field_size: prime_bytes.len() as u32,
        prime_bytes,
        n_wires: 9,
        n_pub_out: 1,
        n_pub_in: 2,
        n_prvt_in: 3,
        n_constraints,
    }
}

fn gate(a: u32, b: u32, c: u32) -> R1CSConstraint {
    R1CSConstraint {
        a_terms: vec![term(a, &[1])],
        b_terms: vec![term(b, &[1])],
        c_terms: vec![term(c, &[1])],
    }
}

#[test]
fn summary_of_a_document_without_constraints() {
    let text = info_string(&header(vec![1, 2, 3], 4), &vec![]);
    assert_eq!(
        text,
        "R1CS Circuit Information:\n\
         \x20 Total wires: 9\n\
         \x20 Public outputs: 1\n\
         \x20 Public inputs: 2\n\
         \x20 Private inputs: 3\n\
         \x20 Constraints: 4\n\
         \x20 Constraints loaded: 0\n\
         \x20 Prime field modulus (first 3 bytes): [1, 2, 3]\n"
    );
}

#[test]
fn summary_shows_eight_bytes_and_three_constraints() {
    let constraints = vec![gate(1, 2, 3), gate(4, 5, 6), gate(7, 8, 9), gate(1, 1, 1), gate(2, 2, 2)];
    let text = info_string(&header((1..=32).collect(), 5), &constraints);
    assert_eq!(
        text,
        "R1CS Circuit Information:\n\
         \x20 Total wires: 9\n\
         \x20 Public outputs: 1\n\
         \x20 Public inputs: 2\n\
         \x20 Private inputs: 3\n\
         \x20 Constraints: 5\n\
         \x20 Constraints loaded: 5\n\
         \x20 Prime field modulus (first 8 bytes): [1, 2, 3, 4, 5, 6, 7, 8]\n\
         \n\
         Sample constraints:\n\
         \x20 Constraint #0: (1·x1) · (1·x2) = 1·x3\n\
         \x20 Constraint #1: (1·x4) · (1·x5) = 1·x6\n\
         \x20 Constraint #2: (1·x7) · (1·x8) = 1·x9\n\
         \x20 ... and 2 more constraints\n"
    );
}

#[test]
fn summary_of_three_constraints_names_no_more() {
    let constraints = vec![gate(1, 2, 3), gate(4, 5, 6), gate(7, 8, 9)];
    let text = info_string(&header(vec![], 3), &constraints);
    assert_eq!(
        text,
        "R1CS Circuit Information:\n\
         \x20 Total wires: 9\n\
         \x20 Public outputs: 1\n\
         \x20 Public inputs: 2\n\
         \x20 Private inputs: 3\n\
         \x20 Constraints: 3\n\
         \x20 Constraints loaded: 3\n\
         \x20 Prime field modulus (first 0 bytes): []\n\
         \n\
         Sample constraints:\n\
         \x20 Constraint #0: (1·x1) · (1·x2) = 1·x3\n\
         \x20 Constraint #1: (1·x4) · (1·x5) = 1·x6\n\
         \x20 Constraint #2: (1·x7) · (1·x8) = 1·x9\n"
    );
}

#[test]
fn summary_of_a_document_that_was_read() {
    let mut file = b"r1cs".to_vec();
    file.extend(1u32.to_le_bytes());
    file.extend(2u32.to_le_bytes());
    let mut constraints = Vec::new();
    for wire in [1u32, 2, 3] {
        constraints.extend(1u32.to_le_bytes());
        constraints.extend(wire.to_le_bytes());
        constraints.extend([1, 0]);
    }
    file.extend(2u32.to_le_bytes());
    file.extend((constraints.len() as u64).to_le_bytes());
    file.extend(&constraints);
    let mut head = 2u32.to_le_bytes().to_vec();
    head.extend([0xfb, 0xff]);
    for count in [4u32, 1, 2, 0] {
        head.extend(count.to_le_bytes());
    }
    head.extend(0u64.to_le_bytes());
    head.extend(1u32.to_le_bytes());
    file.extend(1u32.to_le_bytes());
    file.extend((head.len() as u64).to_le_bytes());
    file.extend(&head);

    let document = R1CS::read(&file).unwrap();
    assert_eq!(
        document.info(),
        "R1CS Circuit Information:\n\
         \x20 Total wires: 4\n\
         \x20 Public outputs: 1\n\
         \x20 Public inputs: 2\n\
         \x20 Private inputs: 0\n\
         \x20 Constraints: 1\n\
         \x20 Constraints loaded: 1\n\
         \x20 Prime field modulus (first 2 bytes): [251, 255]\n\
         \n\
         Sample constraints:\n\
         \x20 Constraint #0: (1·x1) · (1·x2) = 1·x3\n"
    );
}
