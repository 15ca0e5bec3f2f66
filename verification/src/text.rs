//! Text for diagnostics: numbers in decimal, terms, constraints and errors.

use vstd::prelude::*;
use vstd::slice::slice_subrange;
use vstd::string::StringExecFns;

use crate::error::ParseError;
use crate::model::{
    constraints_view, terms_view, ConstraintView, R1CSConstraint, R1CSHeader, R1CSView, Term,
    TermView,
};

verus! {

/// The character of one decimal digit.
pub open spec fn digit(d: int) -> char {
    if d == 0 {
        '0'
    } else if d == 1 {
        '1'
    } else if d == 2 {
        '2'
    } else if d == 3 {
        '3'
    } else if d == 4 {
        '4'
    } else if d == 5 {
        '5'
    } else if d == 6 {
        '6'
    } else if d == 7 {
        '7'
    } else if d == 8 {
        '8'
    } else {
        '9'
    }
}

/// A number in decimal, without leading zeros; zero is the one digit `0`.
pub open spec fn decimal(n: nat) -> Seq<char>
    decreases n,
{
    if n < 10 {
        seq![digit(n as int)]
    } else {
        decimal(n / 10).push(digit((n % 10) as int))
    }
}

/// A term as text: the coefficient in decimal, a middle dot, `x` and the
/// index of the wire.
pub open spec fn term_text(term: TermView) -> Seq<char> {
    decimal(term.coefficient) + "·x"@ + decimal(term.wire_id as nat)
}

/// One term or more as text, with ` + ` between them.
pub open spec fn joined_terms_text(terms: Seq<TermView>) -> Seq<char>
    decreases terms.len(),
{
    if terms.len() == 0 {
        Seq::empty()
    } else if terms.len() == 1 {
        term_text(terms[0])
    } else {
        joined_terms_text(terms.drop_last()) + " + "@ + term_text(terms.last())
    }
}

/// A linear combination as text: its terms with ` + ` between them, and `0`
/// for the combination without terms.
pub open spec fn combination_text(terms: Seq<TermView>) -> Seq<char> {
    if terms.len() == 0 {
        "0"@
    } else {
        joined_terms_text(terms)
    }
}

/// A constraint as text: `(A) · (B) = C`.
pub open spec fn constraint_text(constraint: ConstraintView) -> Seq<char> {
    "("@ + combination_text(constraint.a_terms) + ") · ("@ + combination_text(constraint.b_terms)
        + ") = "@ + combination_text(constraint.c_terms)
}

/// One byte or more as text, each in decimal, with `, ` between them.
pub open spec fn joined_bytes_text(bytes: Seq<u8>) -> Seq<char>
    decreases bytes.len(),
{
    if bytes.len() == 0 {
        Seq::empty()
    } else if bytes.len() == 1 {
        decimal(bytes[0] as nat)
    } else {
        joined_bytes_text(bytes.drop_last()) + ", "@ + decimal(bytes.last() as nat)
    }
}

/// Bytes as text: a list in square brackets.
pub open spec fn bytes_text(bytes: Seq<u8>) -> Seq<char> {
    "["@ + joined_bytes_text(bytes) + "]"@
}

/// The line that shows the constraint at the given index.
pub open spec fn sample_line(constraints: Seq<ConstraintView>, index: int) -> Seq<char> {
    "  Constraint #"@ + decimal(index as nat) + ": "@ + constraint_text(constraints[index])
        + "\n"@
}

/// The lines that show the first `count` constraints, each with its index.
pub open spec fn samples_text(constraints: Seq<ConstraintView>, count: nat) -> Seq<char>
    decreases count,
{
    if count == 0 {
        Seq::empty()
    } else {
        samples_text(constraints, (count - 1) as nat) + sample_line(constraints, count - 1)
    }
}

/// How many bytes of the prime the summary shows.
pub open spec fn shown_prime_bytes(document: R1CSView) -> nat {
    if document.header.prime_bytes.len() > 8 {
        8
    } else {
        document.header.prime_bytes.len()
    }
}

/// How many constraints the summary shows.
pub open spec fn shown_constraints(document: R1CSView) -> nat {
    if document.constraints.len() > 3 {
        3
    } else {
        document.constraints.len()
    }
}

/// The first part of the summary: the counts of the header, the number of
/// constraints that were read, and the first bytes of the prime.
pub open spec fn counts_text(document: R1CSView) -> Seq<char> {
    "R1CS Circuit Information:\n  Total wires: "@ + decimal(document.header.n_wires as nat)
        + "\n  Public outputs: "@ + decimal(document.header.n_pub_out as nat)
        + "\n  Public inputs: "@ + decimal(document.header.n_pub_in as nat)
        + "\n  Private inputs: "@ + decimal(document.header.n_prvt_in as nat)
        + "\n  Constraints: "@ + decimal(document.header.n_constraints as nat)
        + "\n  Constraints loaded: "@ + decimal(document.constraints.len())
        + "\n  Prime field modulus (first "@ + decimal(shown_prime_bytes(document))
        + " bytes): "@ + bytes_text(
        document.header.prime_bytes.take(shown_prime_bytes(document) as int),
    ) + "\n"@
}

/// The line that says how many constraints the summary does not show.
pub open spec fn more_line(document: R1CSView) -> Seq<char> {
    if document.constraints.len() > 3 {
        "  ... and "@ + decimal((document.constraints.len() - 3) as nat) + " more constraints\n"@
    } else {
        Seq::empty()
    }
}

/// The second part of the summary: the first three constraints, and how many
/// more there are. A document without constraints has no second part.
pub open spec fn constraints_text(document: R1CSView) -> Seq<char> {
    if document.constraints.len() == 0 {
        Seq::empty()
    } else {
        "\nSample constraints:\n"@ + samples_text(
            document.constraints,
            shown_constraints(document),
        ) + more_line(document)
    }
}

/// The summary of a document, as lines of text.
pub open spec fn info_text(document: R1CSView) -> Seq<char> {
    counts_text(document) + constraints_text(document)
}

/// What an error says of itself.
pub open spec fn error_text(error: ParseError) -> Seq<char> {
    match error {
        ParseError::IOFailure => "Unexpected end of R1CS data"@,
        ParseError::BadMagic => "Invalid R1CS file: wrong magic bytes"@,
        ParseError::UnsupportedVersion(v) => "Unsupported R1CS version: "@ + decimal(v as nat),
        ParseError::MissingHeaderSection => "R1CS file is missing header section"@,
        ParseError::FieldDecodeFailure => "Failed to deserialize field element"@,
        ParseError::TruncatedSection => "R1CS section reaches past the end of the data"@,
        ParseError::MissingConstraintsSection => "R1CS file is missing constraints section"@,
    }
}

fn digit_str(d: u64) -> (text: &'static str)
    requires
        d < 10,
    ensures
        text@ == seq![digit(d as int)],
{
    proof {
        reveal_strlit("0");
        reveal_strlit("1");
        reveal_strlit("2");
        reveal_strlit("3");
        reveal_strlit("4");
        reveal_strlit("5");
        reveal_strlit("6");
        reveal_strlit("7");
        reveal_strlit("8");
        reveal_strlit("9");
    }
    let text = if d == 0 {
        "0"
    } else if d == 1 {
        "1"
    } else if d == 2 {
        "2"
    } else if d == 3 {
        "3"
    } else if d == 4 {
        "4"
    } else if d == 5 {
        "5"
    } else if d == 6 {
        "6"
    } else if d == 7 {
        "7"
    } else if d == 8 {
        "8"
    } else {
        "9"
    };
    assert(text@ =~= seq![digit(d as int)]);
    text
}

/// Writes a number in decimal behind the text.
pub fn push_decimal(text: &mut String, n: u64)
    ensures
        final(text)@ == old(text)@ + decimal(n as nat),
    decreases n,
{
    if n >= 10 {
        push_decimal(text, n / 10);
    }
    text.append(digit_str(n % 10));
    assert(text@ =~= old(text)@ + decimal(n as nat));
}

impl Term {
    /// Writes the term behind the text.
    pub fn push_to(&self, text: &mut String)
        ensures
            final(text)@ == old(text)@ + term_text(self@),
    {
        let coefficient = self.coefficient.to_string();
        text.append(coefficient.as_str());
        text.append("·x");
        push_decimal(text, self.wire_id as u64);
        assert(text@ =~= old(text)@ + term_text(self@));
    }

    /// The term as text: the coefficient in decimal, a middle dot, `x` and
    /// the index of the wire.
    pub fn to_string(&self) -> (text: String)
        ensures
            text@ == term_text(self@),
    {
        let mut text = String::new();
        self.push_to(&mut text);
        assert(text@ =~= term_text(self@));
        text
    }
}

/// Writes a linear combination behind the text: its terms with ` + ` between
/// them, and `0` for the combination without terms.
pub fn push_combination(text: &mut String, terms: &Vec<Term>)
    ensures
        final(text)@ == old(text)@ + combination_text(terms_view(terms@)),
{
    if terms.len() == 0 {
        text.append("0");
        return ;
    }
    let ghost views = terms_view(terms@);
    let mut i: usize = 0;
    proof {
        assert(text@ =~= old(text)@ + joined_terms_text(views.take(0)));
    }
    while i < terms.len()
        invariant
            views == terms_view(terms@),
            0 < terms.len(),
            i <= terms.len(),
            text@ == old(text)@ + joined_terms_text(views.take(i as int)),
        decreases terms.len() - i,
    {
        let ghost before = text@;
        if i > 0 {
            text.append(" + ");
        }
        terms[i].push_to(text);
        proof {
            let upto = views.take(i + 1);
            assert(upto.drop_last() =~= views.take(i as int));
            assert(upto.last() == terms@[i as int]@);
            assert(text@ =~= old(text)@ + joined_terms_text(upto));
        }
        i = i + 1;
    }
    proof {
        assert(views.take(i as int) =~= views);
    }
}

impl R1CSConstraint {
    /// The constraint as text, `(A) · (B) = C`: each linear combination with
    /// ` + ` between its terms, and `0` for one without terms.
    pub fn to_string(&self) -> (text: String)
        ensures
            text@ == constraint_text(self@),
    {
        let mut text = String::new();
        text.append("(");
        push_combination(&mut text, &self.a_terms);
        text.append(") · (");
        push_combination(&mut text, &self.b_terms);
        text.append(") = ");
        push_combination(&mut text, &self.c_terms);
        assert(text@ =~= constraint_text(self@));
        text
    }
}

/// Writes bytes behind the text: a list in square brackets.
pub fn push_bytes(text: &mut String, bytes: &[u8])
    ensures
        final(text)@ == old(text)@ + bytes_text(bytes@),
{
    text.append("[");
    let mut i: usize = 0;
    proof {
        assert(text@ =~= old(text)@ + "["@ + joined_bytes_text(bytes@.take(0)));
    }
    while i < bytes.len()
        invariant
            i <= bytes.len(),
            text@ == old(text)@ + "["@ + joined_bytes_text(bytes@.take(i as int)),
        decreases bytes.len() - i,
    {
        if i > 0 {
            text.append(", ");
        }
        push_decimal(text, bytes[i] as u64);
        proof {
            let upto = bytes@.take(i + 1);
            assert(upto.drop_last() =~= bytes@.take(i as int));
            assert(upto.last() == bytes@[i as int]);
            assert(text@ =~= old(text)@ + "["@ + joined_bytes_text(upto));
        }
        i = i + 1;
    }
    text.append("]");
    proof {
        assert(bytes@.take(i as int) =~= bytes@);
        assert(text@ =~= old(text)@ + bytes_text(bytes@));
    }
}

/// The first part of the summary of a document.
fn counts_string(header: &R1CSHeader, constraints: &Vec<R1CSConstraint>) -> (text: String)
    ensures
        text@ == counts_text(
            R1CSView { header: header@, constraints: constraints_view(constraints@) },
        ),
{
    let ghost document = R1CSView { header: header@, constraints: constraints_view(constraints@) };
    let mut text = String::from_str("R1CS Circuit Information:\n  Total wires: ");
    push_decimal(&mut text, header.n_wires as u64);
    text.append("\n  Public outputs: ");
    push_decimal(&mut text, header.n_pub_out as u64);
    text.append("\n  Public inputs: ");
    push_decimal(&mut text, header.n_pub_in as u64);
    text.append("\n  Private inputs: ");
    push_decimal(&mut text, header.n_prvt_in as u64);
    text.append("\n  Constraints: ");
    push_decimal(&mut text, header.n_constraints as u64);
    text.append("\n  Constraints loaded: ");
    push_decimal(&mut text, constraints.len() as u64);
    text.append("\n  Prime field modulus (first ");
    let prime = header.prime_bytes.as_slice();
    let shown: usize = if prime.len() > 8 {
        8
    } else {
        prime.len()
    };
    push_decimal(&mut text, shown as u64);
    text.append(" bytes): ");
    let first = slice_subrange(prime, 0, shown);
    proof {
        assert(first@ =~= document.header.prime_bytes.take(shown as int));
    }
    push_bytes(&mut text, first);
    text.append("\n");
    text
}

/// The line that shows the constraint at the given index.
fn sample_string(constraints: &Vec<R1CSConstraint>, index: usize) -> (text: String)
    requires
        index < constraints@.len(),
    ensures
        text@ == sample_line(constraints_view(constraints@), index as int),
{
    let mut text = String::from_str("  Constraint #");
    push_decimal(&mut text, index as u64);
    text.append(": ");
    let constraint = constraints[index].to_string();
    text.append(constraint.as_str());
    text.append("\n");
    text
}

/// The second part of the summary of a document.
fn constraints_string(header: &R1CSHeader, constraints: &Vec<R1CSConstraint>) -> (text: String)
    ensures
        text@ == constraints_text(
            R1CSView { header: header@, constraints: constraints_view(constraints@) },
        ),
{
    let ghost document = R1CSView { header: header@, constraints: constraints_view(constraints@) };
    if constraints.len() == 0 {
        return String::new();
    }
    let mut text = String::from_str("\nSample constraints:\n");
    let samples: usize = if constraints.len() > 3 {
        3
    } else {
        constraints.len()
    };
    let mut i: usize = 0;
    proof {
        assert(text@ =~= "\nSample constraints:\n"@ + samples_text(document.constraints, 0));
    }
    while i < samples
        invariant
            i <= samples <= constraints.len(),
            document.constraints == constraints_view(constraints@),
            text@ == "\nSample constraints:\n"@ + samples_text(document.constraints, i as nat),
        decreases samples - i,
    {
        let line = sample_string(constraints, i);
        text.append(line.as_str());
        proof {
            assert(text@ =~= "\nSample constraints:\n"@ + samples_text(
                document.constraints,
                (i + 1) as nat,
            ));
        }
        i = i + 1;
    }
    if constraints.len() > 3 {
        let mut more = String::from_str("  ... and ");
        push_decimal(&mut more, (constraints.len() - 3) as u64);
        more.append(" more constraints\n");
        text.append(more.as_str());
    } else {
        proof {
            assert(text@ =~= text@ + more_line(document));
        }
    }
    text
}

/// The summary of a document for diagnostics, as lines of text: the counts of
/// the header, the number of constraints that were read, the first eight
/// bytes of the prime, the first three constraints, and how many more there
/// are.
pub fn info_string(header: &R1CSHeader, constraints: &Vec<R1CSConstraint>) -> (text: String)
    ensures
        text@ == info_text(
            R1CSView { header: header@, constraints: constraints_view(constraints@) },
        ),
{
    let mut text = counts_string(header, constraints);
    let second = constraints_string(header, constraints);
    text.append(second.as_str());
    text
}

impl ParseError {
    /// What the error says of itself.
    pub fn to_string(&self) -> (text: String)
        ensures
            text@ == error_text(*self),
    {
        match self {
            ParseError::IOFailure => String::from_str("Unexpected end of R1CS data"),
            ParseError::BadMagic => String::from_str("Invalid R1CS file: wrong magic bytes"),
            ParseError::UnsupportedVersion(v) => {
                let mut text = String::from_str("Unsupported R1CS version: ");
                push_decimal(&mut text, *v as u64);
                text
            },
            ParseError::MissingHeaderSection => String::from_str(
                "R1CS file is missing header section",
            ),
            ParseError::FieldDecodeFailure => String::from_str(
                "Failed to deserialize field element",
            ),
            ParseError::TruncatedSection => String::from_str(
                "R1CS section reaches past the end of the data",
            ),
            ParseError::MissingConstraintsSection => String::from_str(
                "R1CS file is missing constraints section",
            ),
        }
    }
}

} // verus!
