//! Circuits: a header, then one line for each gate.
//!
//! The lines of a text that are not blank are read in their order: the
//! first three as the header, each further one as a gate. The gates of the
//! circuit stand in the order of their lines, which is the order in which
//! they are evaluated. A text is read as a whole or not at all: the first
//! line that is wrong decides the failure. The number of gates that the
//! header declares is not compared with the number of gate lines.

use crate::error::{viewed, LineError, ParseError};
use crate::gate::{gate_of, parse_gate, Gate};
use crate::header::{header_of, parse_header, Header, HeaderView};
use crate::lines::{is_blank_line, lemma_blank_line_changes_nothing, logical_lines, split_lines};
use crate::search::{first_index, lemma_first_index, lemma_first_index_skip};
use crate::text::texts;
use vstd::prelude::*;

verus! {

/// A circuit: its header, and its gates in the order in which they are evaluated.
#[derive(Debug, PartialEq, Eq)]
pub struct Circuit {
    pub header: Header,
    pub gates: Vec<Gate>,
}

/// A circuit as a mathematical value.
pub struct CircuitView {
    pub header: HeaderView,
    pub gates: Seq<Gate>,
}

impl View for Circuit {
    type V = CircuitView;

    open spec fn view(&self) -> CircuitView {
        CircuitView { header: self.header@, gates: self.gates@ }
    }
}

/// The circuit that a sequence of lines describes: a header in the first
/// three lines, and a gate in each line after them.
pub open spec fn circuit_of_lines(lines: Seq<Seq<char>>) -> Result<CircuitView, ParseError> {
    match header_of(lines) {
        Err(e) => Err(e),
        Ok(header) => match first_index(3, lines.len() as int, |i: int| gate_of(lines[i]) is Err) {
            Some(i) => Err(gate_of(lines[i])->Err_0.on_line(i)),
            None => Ok(
                CircuitView {
                    header,
                    gates: Seq::new((lines.len() - 3) as nat, |i: int| gate_of(lines[i + 3])->Ok_0),
                },
            ),
        },
    }
}

/// The circuit that a text describes.
pub open spec fn circuit_of(text: Seq<char>) -> Result<CircuitView, ParseError> {
    circuit_of_lines(logical_lines(text))
}

/// A circuit that is read has the header of its first three lines, and
/// one gate for each line after them, in the order of the lines.
pub proof fn lemma_gates_in_order(lines: Seq<Seq<char>>)
    requires
        circuit_of_lines(lines) is Ok,
    ensures
        header_of(lines) == Ok::<HeaderView, ParseError>(circuit_of_lines(lines)->Ok_0.header),
        circuit_of_lines(lines)->Ok_0.gates.len() == lines.len() - 3,
        forall|i: int|
            0 <= i < lines.len() - 3 ==> gate_of(#[trigger] lines[i + 3]) == Ok::<Gate, LineError>(
                circuit_of_lines(lines)->Ok_0.gates[i],
            ),
{
    let bad = |i: int| gate_of(lines[i]) is Err;
    lemma_first_index(3, lines.len() as int, bad);
    assert forall|i: int| 0 <= i < lines.len() - 3 implies gate_of(#[trigger] lines[i + 3]) == Ok::<
        Gate,
        LineError,
    >(circuit_of_lines(lines)->Ok_0.gates[i]) by {
        assert(!bad(i + 3));
    }
}

/// A reading fails at the first line that is wrong. Where the header is
/// right, the failure is that of a gate line, and every gate line before
/// it is right. This holds of any number of lines that a `usize` can
/// count, as the lines of a string always are.
pub proof fn lemma_first_failure(lines: Seq<Seq<char>>)
    requires
        lines.len() <= usize::MAX,
        circuit_of_lines(lines) is Err,
    ensures
        header_of(lines) is Err ==> header_of(lines)->Err_0 == circuit_of_lines(lines)->Err_0,
        header_of(lines) is Ok ==> ({
            let e = circuit_of_lines(lines)->Err_0;
            &&& 3 <= e.line < lines.len()
            &&& gate_of(lines[e.line as int]) == Err::<Gate, LineError>(
                LineError { kind: e.kind, field: e.field },
            )
            &&& forall|j: int| 3 <= j < e.line ==> gate_of(#[trigger] lines[j]) is Ok
        }),
{
    if header_of(lines) is Ok {
        let bad = |i: int| gate_of(lines[i]) is Err;
        lemma_first_index(3, lines.len() as int, bad);
        let i = first_index(3, lines.len() as int, bad)->0;
        assert forall|j: int| 3 <= j < i implies gate_of(#[trigger] lines[j]) is Ok by {
            assert(!bad(j));
        }
    }
}

/// A blank line before the first line of a text, or after any line feed,
/// changes nothing in what the text describes.
pub proof fn lemma_blank_line_is_ignored(before: Seq<char>, blank: Seq<char>, after: Seq<char>)
    requires
        before.len() == 0 || before.last() == '\n',
        is_blank_line(blank),
    ensures
        circuit_of(before + blank + after) == circuit_of(before + after),
{
    lemma_blank_line_changes_nothing(before, blank, after);
}

/// What `Circuit::parse` returns depends on the characters of the text
/// alone: two readings of the same text give equal results.
pub proof fn lemma_parse_is_deterministic(
    first_text: &str,
    second_text: &str,
    first: Result<Circuit, ParseError>,
    second: Result<Circuit, ParseError>,
)
    requires
        first_text@ == second_text@,
        viewed(first) == circuit_of(first_text@),
        viewed(second) == circuit_of(second_text@),
    ensures
        viewed(first) == viewed(second),
        first is Ok ==> second is Ok && first->Ok_0@ == second->Ok_0@,
        first is Err ==> second is Err && first->Err_0 == second->Err_0,
{
}

impl Circuit {
    /// Reads a circuit from the contents of a file in Bristol format.
    ///
    /// Fails with `StructuralError` where the text has fewer than three
    /// lines that are not blank, and as the reader of the first line that
    /// is wrong does otherwise. The failure names that line by its
    /// position among the lines that are not blank.
    pub fn parse(circuit: &str) -> (r: Result<Circuit, ParseError>)
        ensures
            viewed(r) == circuit_of(circuit@),
    {
        let lines = split_lines(circuit);
        let header = match parse_header(lines.as_slice()) {
            Ok(header) => header,
            Err(e) => return Err(e),
        };
        let ghost all = texts(lines@);
        let ghost bad = |i: int| gate_of(all[i]) is Err;
        let mut gates: Vec<Gate> = Vec::new();
        let mut i: usize = 3;
        while i < lines.len()
            invariant
                3 <= i <= lines.len(),
                all == texts(lines@),
                all == logical_lines(circuit@),
                bad == |i: int| gate_of(all[i]) is Err,
                header_of(all) == Ok::<HeaderView, ParseError>(header@),
                gates@.len() == i - 3,
                forall|j: int| 3 <= j < i ==> !#[trigger] bad(j),
                forall|j: int| 0 <= j < i - 3 ==> gates@[j] == gate_of(all[j + 3])->Ok_0,
            decreases lines.len() - i,
        {
            match parse_gate(lines[i]) {
                Ok(gate) => gates.push(gate),
                Err(e) => {
                    proof {
                        lemma_first_index_skip(3, i as int, lines.len() as int, bad);
                    }
                    return Err(e.at_line(i));
                },
            }
            i += 1;
        }
        proof {
            lemma_first_index_skip(3, i as int, lines.len() as int, bad);
            assert(gates@ =~= Seq::new(
                (all.len() - 3) as nat,
                |i: int| gate_of(all[i + 3])->Ok_0,
            ));
        }
        Ok(Circuit { header, gates })
    }
}

} // verus!
